use gt_crust::system::position::{FancyPosition, ScreenSpacePosition};
use gt_crust::system::rectangle::{BoxFill, Rectangle, BOX_COLOR};
use gt_crust::system::via::{
    profiler_end_writes, profiler_start_writes, rom_bank_step_reads, rom_bank_write, ROM_BANK_STEPS,
};

fn rect(x: u8, y: u8, w: u8, h: u8) -> Rectangle {
    Rectangle { xy: FancyPosition { x, y }, size: FancyPosition { x: w, y: h } }
}

#[test]
fn overlapping_rectangles_intersect() {
    let a = rect(64, 64, 10, 10);
    assert!(a.intersects(rect(70, 70, 10, 10)));
    assert!(rect(70, 70, 10, 10).intersects(rect(64, 64, 10, 10)));
    assert!(a.intersects(rect(64, 64, 10, 10)));
}

#[test]
fn touching_rectangles_do_not_intersect() {
    let a = rect(64, 64, 10, 10);
    assert!(!a.intersects(rect(74, 64, 10, 10)));
    assert!(!a.intersects(rect(64, 74, 10, 10)));
    assert!(!a.intersects(rect(54, 64, 10, 10)));
    assert!(!a.intersects(rect(100, 100, 5, 5)));
}

#[test]
fn intersection_is_symmetric() {
    let rs = [rect(0, 0, 5, 5), rect(3, 3, 1, 1), rect(4, 0, 10, 2), rect(200, 250, 60, 10)];
    for a in rs.iter() {
        for b in rs.iter() {
            let ab = rect(a.xy.x, a.xy.y, a.size.x, a.size.y)
                .intersects(rect(b.xy.x, b.xy.y, b.size.x, b.size.y));
            let ba = rect(b.xy.x, b.xy.y, b.size.x, b.size.y)
                .intersects(rect(a.xy.x, a.xy.y, a.size.x, a.size.y));
            assert_eq!(ab, ba);
        }
    }
}

#[test]
fn far_edges_wrap_within_a_byte() {
    // 250 + 10 wraps to 4, which is left of 100: not intersecting.
    assert!(!rect(250, 0, 10, 10).intersects(rect(100, 0, 10, 10)));
}

#[test]
fn drawing_moves_the_box_to_screen_space() {
    let b = rect(80, 100, 12, 7).draw();
    assert_eq!(b, BoxFill { x: 16, y: 36, w: 12, h: 7, color: BOX_COLOR, gen_rng: false });
    assert_eq!(BOX_COLOR, 0b100_00_011);
    let off = rect(10, 64, 1, 1).draw();
    assert_eq!(off.x, 202);
    assert_eq!(off.y, 0);
}

#[test]
fn world_and_screen_positions_round_trip() {
    for c in 0..=255u8 {
        let p = FancyPosition { x: c, y: 255 - c };
        assert_eq!(p.to_screenspace().to_fancy(), p);
        let s = ScreenSpacePosition { x: c, y: c };
        assert_eq!(s.to_fancy().to_screenspace(), s);
    }
    assert_eq!(FancyPosition { x: 64, y: 191 }.to_screenspace(), ScreenSpacePosition { x: 0, y: 127 });
}

/// Runs a bank switch against a port that reads back its last write.
fn bank_switch_writes(banknum: u8) -> Vec<u8> {
    let mut port = 0u8;
    let mut writes = Vec::new();
    for step in 0..ROM_BANK_STEPS {
        let read_back = if rom_bank_step_reads(step) { port } else { 0 };
        port = rom_bank_write(banknum, step, read_back);
        writes.push(port);
    }
    writes
}

#[test]
fn bank_switch_sequence() {
    assert_eq!(
        bank_switch_writes(254),
        vec![0, 2, 3, 2, 3, 2, 3, 2, 3, 2, 3, 2, 3, 2, 3, 0, 1, 5, 0]
    );
}

#[test]
fn bank_switch_clocks_out_the_bank_number() {
    for bank in 0..=255u8 {
        let w = bank_switch_writes(bank);
        assert_eq!(w.len(), 19);
        let mut received = 0u8;
        for i in 0..8 {
            assert_eq!(w[2 * i + 1] & 1, 0);
            assert_eq!(w[2 * i + 2] & 1, 1);
            received = (received << 1) | ((w[2 * i + 2] >> 1) & 1);
        }
        assert_eq!(received, bank);
        assert_eq!(w[17] & 4, 4);
        assert_eq!(w[18], 0);
    }
}

#[test]
fn bank_switch_reads_only_on_clock_and_latch_steps() {
    let reads: Vec<u8> = (0..ROM_BANK_STEPS).filter(|s| rom_bank_step_reads(*s)).collect();
    assert_eq!(reads, vec![2, 4, 6, 8, 10, 12, 14, 16, 17]);
    // A port that reads back something else still gets the read value with the clock set.
    assert_eq!(rom_bank_write(0, 2, 0b1000_0000), 0b1000_0001);
    assert_eq!(rom_bank_write(0, 17, 0b1000_0000), 0b1000_0100);
}

#[test]
fn profiler_markers() {
    assert_eq!(profiler_start_writes(5), (0x80, 5));
    assert_eq!(profiler_end_writes(5), (0x80, 0x45));
    assert_eq!(profiler_end_writes(0x40), (0x80, 0x40));
}
