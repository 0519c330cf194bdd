use digital_rain::drip::Drip;
use digital_rain::engine::{DigitalRain, RainError};
use digital_rain::glyph::{
    charset_glyph, is_glyph_char, is_glyph_pool_vec, random_glyph, random_glyph_pool, BLANK,
    CHARSET, CHARSET_LEN,
};
use rand::rngs::StdRng;
use rand::SeedableRng;

fn engine_with(size: usize, drips: Vec<Drip>) -> DigitalRain {
    match DigitalRain::with_drips(size, drips) {
        Ok(e) => e,
        Err(e) => panic!("engine refused: {:?}", e),
    }
}

fn grid_snapshot(e: &DigitalRain) -> Vec<char> {
    e.grid().clone()
}

#[test]
fn charset_length_matches() {
    assert_eq!(CHARSET.chars().count(), CHARSET_LEN);
    assert_eq!(charset_glyph(0), ' ');
    assert_eq!(charset_glyph(6), '0');
    assert_eq!(charset_glyph(CHARSET_LEN - 1), 'ﾜ');
}

#[test]
fn glyph_membership() {
    assert!(is_glyph_char(BLANK));
    assert!(is_glyph_char('A'));
    assert!(is_glyph_char('ｦ'));
    assert!(!is_glyph_char('a'));
    assert!(!is_glyph_char('!'));
    assert!(is_glyph_pool_vec(&vec!['X', '7']));
    assert!(!is_glyph_pool_vec(&vec![]));
    assert!(!is_glyph_pool_vec(&vec!['X', 'x']));
}

#[test]
fn sampled_glyphs_are_in_charset() {
    let mut rng = StdRng::seed_from_u64(3);
    for _ in 0..200 {
        let c = random_glyph(&mut rng);
        assert!(CHARSET.contains(c));
    }
    let pool = random_glyph_pool(&mut rng, 17);
    assert_eq!(pool.len(), 17);
    assert!(pool.iter().all(|c| CHARSET.contains(*c)));
}

#[test]
fn sampler_draws_more_than_one_glyph() {
    let mut rng = StdRng::seed_from_u64(11);
    let pool = random_glyph_pool(&mut rng, 20);
    assert!(pool.iter().any(|c| *c != pool[0]));
}

#[test]
fn zero_size_is_rejected() {
    let mut rng = StdRng::seed_from_u64(1);
    assert!(matches!(DigitalRain::new(0, &mut rng), Err(RainError::EmptyGrid)));
    assert!(matches!(DigitalRain::with_drips(0, vec![]), Err(RainError::EmptyGrid)));
}

#[test]
fn bad_drips_are_rejected() {
    let bad = |d: Drip| matches!(DigitalRain::with_drips(4, vec![d]), Err(RainError::BadDrip));
    assert!(bad(Drip::new(4, 1, vec!['X'], 0)));
    assert!(bad(Drip::new(0, 0, vec!['X'], 0)));
    assert!(bad(Drip::new(0, 1, vec![], 0)));
    assert!(bad(Drip::new(0, 1, vec!['x'], 0)));
    let mut low = Drip::new(0, 1, vec!['X'], 0);
    low.row = 5;
    assert!(bad(low));
    let mut bottom = Drip::new(0, 1, vec!['X'], 0);
    bottom.row = 4;
    assert!(DigitalRain::with_drips(4, vec![bottom]).is_ok());
}

#[test]
fn new_engine_is_blank_with_content_drips() {
    let mut rng = StdRng::seed_from_u64(5);
    let e = DigitalRain::new(38, &mut rng).unwrap();
    assert_eq!(e.size(), 38);
    assert_eq!(e.frame(), 0);
    assert_eq!(e.grid().len(), 38 * 38);
    assert!(e.grid().iter().all(|c| *c == ' '));
    let n = e.drips().len();
    assert!(n >= 38 / 4 && n < 38);
    for d in e.drips() {
        assert!(d.column < 38);
        assert_eq!(d.row, 0);
        assert!(d.velocity >= 10 && d.velocity < 100);
        assert!(!d.glyphs.is_empty() && d.glyphs.len() <= 20);
        assert_eq!(d.created, 0);
    }
}

#[test]
fn single_content_drip_falls_and_respawns_three() {
    let mut rng = StdRng::seed_from_u64(42);
    let mut e = engine_with(4, vec![Drip::new(0, 1, vec!['X'], 0)]);
    e.update(&mut rng);
    assert_eq!(e.glyph_at(0, 0), 'X');
    assert_eq!(e.drips()[0].row, 1);
    for t in 2..=4 {
        e.update(&mut rng);
        assert_eq!(e.drips()[0].row, t);
        assert_eq!(e.glyph_at(0, t - 1), 'X');
    }
    assert_eq!(e.drips().len(), 1);
    e.update(&mut rng);
    let ds = e.drips();
    assert_eq!(ds.len(), 3);
    assert!(ds.iter().all(|d| d.created == 5 && d.row <= 1));
    assert!(ds[0].velocity >= 10 && ds[0].velocity < 100);
    assert_eq!(ds[1].glyphs, vec![' ']);
    assert!(ds[1].velocity >= 5 && ds[1].velocity < 50);
    assert_eq!(ds[2].glyphs, vec![' ']);
    assert_eq!(ds[2].column, 0);
    assert!(ds[2].velocity >= 5 && ds[2].velocity < 25);
}

#[test]
fn eraser_drip_expires_without_respawn() {
    let mut rng = StdRng::seed_from_u64(9);
    let mut e = engine_with(10, vec![Drip::new(3, 5, vec![' '], 0)]);
    for _ in 0..50 {
        e.update(&mut rng);
    }
    assert_eq!(e.drips().len(), 1);
    assert_eq!(e.drips()[0].row, 10);
    e.update(&mut rng);
    assert_eq!(e.drips().len(), 0);
    assert!(e.grid().iter().all(|c| *c == ' '));
}

#[test]
fn same_seed_gives_same_grid() {
    let mut r1 = StdRng::seed_from_u64(2024);
    let mut r2 = StdRng::seed_from_u64(2024);
    let mut a = DigitalRain::new(20, &mut r1).unwrap();
    let mut b = DigitalRain::new(20, &mut r2).unwrap();
    for _ in 0..300 {
        a.update(&mut r1);
        b.update(&mut r2);
    }
    assert_eq!(a.grid(), b.grid());
    assert_eq!(a.drips().len(), b.drips().len());
    assert!(a.grid().iter().any(|c| *c != ' '));
}

#[test]
fn rows_cells_and_respawn_counts_hold_every_tick() {
    let mut rng = StdRng::seed_from_u64(77);
    let size = 12;
    let mut e = DigitalRain::new(size, &mut rng).unwrap();
    for _ in 0..600 {
        let before = e.drips();
        let kept = before.iter().filter(|d| d.row < size).count();
        let content_expired = before
            .iter()
            .filter(|d| d.row >= size && d.glyphs != vec![' '])
            .count();
        e.update(&mut rng);
        assert_eq!(e.drips().len(), kept + 3 * content_expired);
        assert!(e.drips().iter().all(|d| d.row <= size && d.column < size));
        assert!(e.grid().iter().all(|c| is_glyph_char(*c)));
    }
}

#[test]
fn reading_the_grid_changes_nothing() {
    let mut rng = StdRng::seed_from_u64(8);
    let mut e = DigitalRain::new(10, &mut rng).unwrap();
    for _ in 0..40 {
        e.update(&mut rng);
    }
    let g1 = grid_snapshot(&e);
    let g2 = grid_snapshot(&e);
    assert_eq!(g1, g2);
    assert_eq!(e.frame(), 40);
    assert_eq!(e.glyph_at(2, 3), g1[2 * 10 + 3]);
}

#[test]
fn expire_removes_bottom_drips_in_order() {
    let mut a = Drip::new(1, 3, vec!['A'], 0);
    a.row = 4;
    let b = Drip::new(2, 3, vec!['B'], 0);
    let mut c = Drip::new(3, 3, vec![' '], 0);
    c.row = 4;
    let d = Drip::new(0, 3, vec!['D'], 0);
    let mut e = engine_with(4, vec![a, b, c, d]);
    let cols = e.expire();
    assert_eq!(cols, vec![1]);
    let ds = e.drips();
    assert_eq!(ds.len(), 2);
    assert_eq!(ds[0].glyphs, vec!['B']);
    assert_eq!(ds[1].glyphs, vec!['D']);
}

#[test]
fn respawn_appends_three_drips() {
    let mut e = engine_with(6, vec![]);
    e.respawn(4, Drip::new(2, 30, vec!['Q', 'R'], 0), 5, 7, 9);
    let ds = e.drips();
    assert_eq!(ds.len(), 3);
    assert_eq!((ds[0].column, ds[0].velocity), (2, 30));
    assert_eq!(ds[0].glyphs, vec!['Q', 'R']);
    assert_eq!((ds[1].column, ds[1].velocity), (5, 7));
    assert_eq!(ds[1].glyphs, vec![' ']);
    assert_eq!((ds[2].column, ds[2].velocity), (4, 9));
    assert_eq!(ds[2].glyphs, vec![' ']);
    assert!(ds.iter().all(|d| d.row == 0 && d.created == 0));
}

#[test]
fn step_drip_paints_on_flicker_and_falls_on_advance() {
    let mut e = engine_with(5, vec![Drip::new(1, 2, vec!['K', 'L'], 0)]);
    // Frame 0 is a multiple of every velocity: paint and fall.
    e.step_drip(0, false, Some('L'));
    assert_eq!(e.glyph_at(1, 0), 'L');
    assert_eq!(e.drips()[0].row, 1);
    let mut rng = StdRng::seed_from_u64(1);
    // Frame 1 with velocity 2: no advance; the drip may only flicker.
    e.update(&mut rng);
    assert_eq!(e.drips()[0].row, 1);
    let before = e.glyph_at(1, 1);
    assert!(before == ' ' || before == 'K' || before == 'L');
}

#[test]
fn step_drip_without_pick_paints_blank() {
    let mut e = engine_with(3, vec![Drip::new(2, 1, vec!['Z'], 0)]);
    e.step_drip(0, true, Some('Z'));
    assert_eq!(e.glyph_at(2, 0), 'Z');
    assert_eq!(e.drips()[0].row, 1);
    e.step_drip(0, true, None);
    assert_eq!(e.glyph_at(2, 1), ' ');
    assert_eq!(e.drips()[0].row, 2);
}

#[test]
fn drip_at_bottom_does_nothing() {
    let mut d = Drip::new(0, 1, vec!['X'], 0);
    d.row = 3;
    let mut e = engine_with(3, vec![d]);
    e.step_drip(0, true, Some('X'));
    assert_eq!(e.drips()[0].row, 3);
    assert!(e.grid().iter().all(|c| *c == ' '));
}

#[test]
fn eraser_recognised() {
    assert!(Drip::eraser(0, 5, 0).is_eraser());
    assert!(!Drip::new(0, 5, vec!['X'], 0).is_eraser());
    assert!(!Drip::new(0, 5, vec![' ', ' '], 0).is_eraser());
}
