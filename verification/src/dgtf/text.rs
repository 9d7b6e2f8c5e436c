use vstd::prelude::*;
use vstd::string::StrSliceExecFns;

verus! {

/// The font's character table: a character is drawn as the glyph at its index here.
/// The table holds a left and a right double quote, one after the other.
pub const CHARACTERS: &'static str = " ABCDEFGHIJKLMNOPQRSTUVWXYZabcdefghijklmnopqrstuvwxyz1234567890!?.,;:/\"\"()[]{}<>";

/// `i` is the index of the first `c` in `s`.
pub open spec fn is_first_index(s: Seq<char>, c: char, i: int) -> bool {
    &&& 0 <= i < s.len()
    &&& s[i] == c
    &&& forall|j: int| 0 <= j < i ==> s[j] != c
}

/// How many double quotes `s` holds in its first `n` characters.
pub open spec fn quotes_before(s: Seq<char>, n: int) -> nat
    decreases n,
{
    if n <= 0 {
        0
    } else {
        quotes_before(s, n - 1) + if s[n - 1] == '"' { 1nat } else { 0nat }
    }
}

/// The quote count up to `n` is the number of double quotes among the first `n`
/// characters, whatever other characters lie between them: nothing resets it.
pub proof fn lemma_quotes_before_counts(s: Seq<char>, n: int)
    requires
        0 <= n <= s.len(),
    ensures
        quotes_before(s, n) == s.subrange(0, n).filter(|c: char| c == '"').len(),
    decreases n,
{
    reveal(Seq::filter);
    if n > 0 {
        lemma_quotes_before_counts(s, n - 1);
        assert(s.subrange(0, n).drop_last() =~= s.subrange(0, n - 1));
    }
}

/// In the character table the left quote glyph is at 70 and the right one at 71.
/// So a double quote of a string takes glyph 71 exactly when the count of double
/// quotes up to and including it is even (it closes a quotation), and 70 when that
/// count is odd; any other character takes the one index of the table that shows it.
pub proof fn lemma_glyph_index_meaning(s: Seq<char>, k: int, idx: int)
    requires
        0 <= k < s.len(),
    ensures
        s[k] == '"' ==> (glyph_index_at(s, k, idx) <==> idx == (if s.subrange(0, k + 1).filter(
            |c: char| c == '"',
        ).len() % 2 == 0 {
            71int
        } else {
            70int
        })),
        s[k] != '"' ==> (glyph_index_at(s, k, idx) ==> 0 <= idx < CHARACTERS@.len()
            && CHARACTERS@[idx] == s[k]),
        s[k] != '"' ==> forall|j: int| #![trigger CHARACTERS@[j]]
            glyph_index_at(s, k, idx) && 0 <= j < CHARACTERS@.len() && CHARACTERS@[j] == s[k] ==> j == idx,
{
    reveal_strlit(" ABCDEFGHIJKLMNOPQRSTUVWXYZabcdefghijklmnopqrstuvwxyz1234567890!?.,;:/\"\"()[]{}<>");
    lemma_quotes_before_counts(s, k + 1);
    assert(CHARACTERS@[70] == '"');
    assert(CHARACTERS@[69] != '"');
    if s[k] == '"' {
        assert forall|j: int| 0 <= j < 70 implies CHARACTERS@[j] != '"' by {
            assert(CHARACTERS@[j] != '"');
        }
    }
}

/// Whether the character table can show `c`: double quotes always, others when the table holds them.
pub open spec fn drawable(c: char) -> bool {
    c == '"' || CHARACTERS@.contains(c)
}

/// `idx` is the glyph index of character `k` of `s`: a double quote takes the left
/// quote when it opens a quotation (an odd count of quotes up to and including it)
/// and the right one, just after the left in the table, when it closes one; any
/// other character takes its first index in the table.
pub open spec fn glyph_index_at(s: Seq<char>, k: int, idx: int) -> bool {
    if s[k] == '"' {
        if quotes_before(s, k + 1) % 2 == 1 {
            is_first_index(CHARACTERS@, '"', idx)
        } else {
            is_first_index(CHARACTERS@, '"', idx - 1)
        }
    } else {
        is_first_index(CHARACTERS@, s[k], idx)
    }
}

/// Index of the first `c` in `table`, counted in characters.
pub fn find_char(table: &str, c: char) -> (r: Option<usize>)
    ensures
        match r {
            Some(i) => is_first_index(table@, c, i as int),
            None => !table@.contains(c),
        },
{
    let n = table.unicode_len();
    let mut i: usize = 0;
    while i < n
        invariant
            n == table@.len(),
            i <= n,
            forall|j: int| 0 <= j < i ==> table@[j] != c,
        decreases n - i,
    {
        if table.get_char(i) == c {
            return Some(i);
        }
        i += 1;
    }
    None
}

/// Glyph indices of the characters of `input`, one per character, with double quotes
/// taken alternately as opening and closing quotes. Fails with the first character
/// the table cannot show.
pub fn string_to_indices(input: &str) -> (r: Result<Vec<usize>, char>)
    ensures
        match r {
            Ok(v) => {
                &&& v.len() == input@.len()
                &&& forall|k: int| 0 <= k < input@.len() ==> #[trigger] glyph_index_at(input@, k, v[k] as int)
            },
            Err(c) => exists|k: int| {
                &&& 0 <= k < input@.len()
                &&& #[trigger] input@[k] == c
                &&& !drawable(c)
                &&& forall|j: int| 0 <= j < k ==> drawable(#[trigger] input@[j])
            },
        },
        r is Ok <==> forall|k: int| 0 <= k < input@.len() ==> drawable(#[trigger] input@[k]),
{
    let mut quote_count: usize = 0;
    proof {
        reveal_strlit(" ABCDEFGHIJKLMNOPQRSTUVWXYZabcdefghijklmnopqrstuvwxyz1234567890!?.,;:/\"\"()[]{}<>");
        assert(CHARACTERS@[70] == '"');
    }
    let left_quote_index = match find_char(CHARACTERS, '"') {
        Some(i) => i,
        None => {
            // The table holds a double quote, so this arm is never taken.
            proof {
                assert(CHARACTERS@.contains('"'));
            }
            0
        },
    };
    // Index for the right quote
    let right_quote_index = left_quote_index + 1;
    let n = input.unicode_len();
    let mut indices: Vec<usize> = Vec::new();
    let mut i: usize = 0;
    while i < n
        invariant
            n == input@.len(),
            i <= n,
            indices.len() == i,
            quote_count == quotes_before(input@, i as int),
            quote_count <= i,
            is_first_index(CHARACTERS@, '"', left_quote_index as int),
            right_quote_index == left_quote_index + 1,
            forall|k: int| 0 <= k < i ==> #[trigger] glyph_index_at(input@, k, indices[k] as int),
            forall|k: int| 0 <= k < i ==> drawable(#[trigger] input@[k]),
        decreases n - i,
    {
        let c = input.get_char(i);
        if c == '"' {
            quote_count += 1;
            if quote_count % 2 == 0 {
                indices.push(right_quote_index);
            } else {
                indices.push(left_quote_index);
            }
        } else {
            match find_char(CHARACTERS, c) {
                Some(idx) => indices.push(idx),
                None => {
                    assert(!drawable(input@[i as int]));
                    return Err(c);
                },
            }
        }
        proof {
            assert forall|k: int| 0 <= k < i + 1 implies #[trigger] glyph_index_at(
                input@,
                k,
                indices[k] as int,
            ) by {
                if k < i {
                    assert(glyph_index_at(input@, k, indices[k] as int));
                }
            }
        }
        i += 1;
    }
    Ok(indices)
}

} // verus!
