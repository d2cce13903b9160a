use chip8rtic::blinker::{BlinkStep, Blinker};

#[test]
fn run_moves_the_light_one_place() {
    let mut blinker = Blinker { led: 3 };
    assert_eq!(blinker.run(), BlinkStep { off: 3, on: 4 });
    assert_eq!(blinker.led, 4);
}

#[test]
fn run_wraps_round_the_ring() {
    let mut blinker = Blinker { led: 7 };
    assert_eq!(blinker.run(), BlinkStep { off: 7, on: 0 });
    assert_eq!(blinker.led, 0);
}

#[test]
fn eight_runs_come_back_and_visit_every_led() {
    let mut blinker = Blinker { led: 5 };
    let mut lit = Vec::new();
    for _ in 0..8 {
        lit.push(blinker.run().on);
    }
    assert_eq!(blinker.led, 5);
    let mut sorted = lit.clone();
    sorted.sort();
    assert_eq!(sorted, (0..8).collect::<Vec<usize>>());
}
