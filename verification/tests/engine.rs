use snake_engine::{Game, GameMode, Vector2};

fn no_fruit_tick(g: &mut Game) -> (String, Option<Vec<u64>>) {
    // A roll of 9 never spawns fruit, keeping the run deterministic.
    g.tick_with(9, 0)
}

#[test]
fn translate_stays_in_bounds() {
    let bounds = Vector2(64, 24);
    let mut v = Vector2(0, 0);
    v.translate(&Vector2(-1, 0), &bounds);
    assert_eq!(v, Vector2(63, 0));
    let mut v = Vector2(0, 0);
    v.translate(&Vector2(0, -1), &bounds);
    assert_eq!(v, Vector2(0, 23));
    let mut v = Vector2(63, 23);
    v.translate(&Vector2(1, 0), &bounds);
    assert_eq!(v, Vector2(0, 23));
    let mut v = Vector2(63, 23);
    v.translate(&Vector2(0, 1), &bounds);
    assert_eq!(v, Vector2(63, 0));
    let mut v = Vector2(10, 12);
    v.translate(&Vector2(0, 0), &bounds);
    assert_eq!(v, Vector2(10, 12));
    let mut v = Vector2(30, 11);
    v.translate(&Vector2(1, 1), &bounds);
    assert_eq!(v, Vector2(31, 12));
}

#[test]
fn fresh_solo_board_renders_spawn() {
    let g = Game::new(GameMode::Solo, &[1]);
    let s = g.as_str();
    let lines: Vec<&str> = s.split('\n').collect();
    assert_eq!(lines.len(), 24);
    for line in &lines {
        assert_eq!(line.len(), 64);
    }
    // A single player spawns on row 10 with its 2-cell body at columns 2
    // and 3; the head is drawn as 'O', the other segment with glyph '#'.
    let row: Vec<char> = lines[10].chars().collect();
    assert_eq!(row[2], '#');
    assert_eq!(row[3], 'O');
    assert_eq!(row[4], '-');
    assert!(lines[9].chars().all(|c| c == '-'));
}

#[test]
fn eating_fruit_scores_one_point() {
    let mut g = Game::new(GameMode::Solo, &[1]);
    // Empty cells are scanned row-major; rows 0..9 contribute 640, row 10
    // starts with columns 0 and 1, so slot 642 is the cell (4, 10) right
    // in front of the snake. A roll of 0 spawns the fruit there.
    let (s, out) = g.tick_with(0, 642);
    assert!(out.is_none());
    assert!(!s.contains('*'));
    let ranks = g.get_rankings();
    assert_eq!(ranks.len(), 1);
    assert_eq!(ranks[0].get_id(), 1);
    assert_eq!(ranks[0].get_score(), 1);
    assert_eq!(ranks[0].get_kills(), 0);
    assert!(!ranks[0].is_dead());
}

#[test]
fn fruit_lands_on_selected_empty_cell() {
    let mut g = Game::new(GameMode::Solo, &[1]);
    // Slot 0 is the top-left corner, far away from the snake.
    let (s, _) = g.tick_with(2, 0);
    let lines: Vec<&str> = s.split('\n').collect();
    assert_eq!(lines[0].chars().next().unwrap(), '*');
}

#[test]
fn solo_game_never_ends_while_alive() {
    let mut g = Game::new(GameMode::Solo, &[42]);
    for _ in 0..200 {
        let (_, out) = no_fruit_tick(&mut g);
        assert!(out.is_none());
    }
    let ranks = g.get_rankings();
    assert!(!ranks[0].is_dead());
    assert_eq!(ranks[0].get_score(), 0);
}

#[test]
fn reversing_into_own_neck_is_fatal_and_credits_nobody() {
    let mut g = Game::new(GameMode::Solo, &[1]);
    g.apply_input(1, Vector2(-1, 0));
    let (_, out) = no_fruit_tick(&mut g);
    assert_eq!(out, Some(vec![1]));
    let ranks = g.get_rankings();
    assert!(ranks[0].is_dead());
    assert_eq!(ranks[0].get_kills(), 0);
    assert_eq!(ranks[0].get_score(), 0);
}

#[test]
fn simultaneous_head_collision_kills_both() {
    // Three players spawn on rows 5, 10 and 15. The middle one cancels at
    // once; the outer two steer onto column 4 and meet head-on at (4, 10),
    // which by then is empty. Both die in the same tick and both are
    // reported as that tick's casualties.
    let mut g = Game::new(GameMode::Snake, &[1, 2, 3]);
    g.apply_input(2, Vector2(0, 0));
    let (_, out) = no_fruit_tick(&mut g);
    assert!(out.is_none());
    g.apply_input(1, Vector2(0, 1));
    g.apply_input(3, Vector2(0, -1));
    for _ in 0..4 {
        let (_, out) = no_fruit_tick(&mut g);
        assert!(out.is_none());
    }
    let (_, out) = no_fruit_tick(&mut g);
    assert_eq!(out, Some(vec![1, 3]));
    let ranks = g.get_rankings();
    assert_eq!(ranks.len(), 3);
    for p in &ranks {
        assert!(p.is_dead());
    }
    // The mover processed second ran into the first mover's freshly placed
    // head segment, crediting the first mover with the kill.
    assert_eq!(ranks[0].get_id(), 1);
    assert_eq!(ranks[0].get_kills(), 1);
    assert_eq!(ranks[0].get_score(), 3);
    assert_eq!(ranks[1].get_id(), 2);
    assert_eq!(ranks[2].get_id(), 3);
}

#[test]
fn running_into_a_body_credits_the_owner_and_ends_the_round() {
    // Two players: the first keeps heading right around row 7; the second
    // turns up column 4 and keeps climbing. After 128 ticks the second
    // snake's tail sits on (4, 7) just as the first arrives there: the
    // first dies, the survivor gets the kill and wins the round.
    let mut g = Game::new(GameMode::Snake, &[1, 2]);
    g.apply_input(2, Vector2(1, 0));
    let (_, out) = no_fruit_tick(&mut g);
    assert!(out.is_none());
    g.apply_input(2, Vector2(0, -1));
    let mut finished = None;
    for t in 2..=200 {
        let (_, out) = no_fruit_tick(&mut g);
        if out.is_some() {
            finished = Some((t, out.unwrap()));
            break;
        }
    }
    let (t, winners) = finished.expect("the chase must end");
    assert_eq!(t, 129);
    assert_eq!(winners, vec![2]);
    let ranks = g.get_rankings();
    assert_eq!(ranks.len(), 2);
    assert_eq!(ranks[0].get_id(), 2);
    assert!(!ranks[0].is_dead());
    assert_eq!(ranks[0].get_kills(), 1);
    assert_eq!(ranks[0].get_score(), 3);
    assert_eq!(ranks[1].get_id(), 1);
    assert!(ranks[1].is_dead());
    assert_eq!(ranks[1].get_score(), 0);
}

struct Lcg(u64);

impl Lcg {
    fn next(&mut self) -> u64 {
        self.0 = self
            .0
            .wrapping_mul(6364136223846793005)
            .wrapping_add(1442695040888963407);
        self.0 >> 33
    }
}

#[test]
fn fruit_spawns_on_about_three_ticks_in_ten() {
    let mut rng = Lcg(0xfeed_5eed);
    let mut spawned = 0usize;
    let n = 10_000;
    for _ in 0..n {
        let mut g = Game::new(GameMode::Solo, &[1]);
        let roll = rng.next();
        let slot = rng.next();
        let (s, _) = g.tick_with(roll, slot);
        let ate = g.get_rankings()[0].get_score() == 1;
        if s.contains('*') || ate {
            spawned += 1;
        }
    }
    assert!(spawned >= 2700, "spawned only {} of {}", spawned, n);
    assert!(spawned <= 3300, "spawned {} of {}", spawned, n);
}

#[test]
fn drawn_fruit_rate_is_plausible() {
    let mut spawned = 0usize;
    let n = 1_000;
    for _ in 0..n {
        let mut g = Game::new(GameMode::Solo, &[1]);
        let (s, _) = g.tick();
        let ate = g.get_rankings()[0].get_score() == 1;
        if s.contains('*') || ate {
            spawned += 1;
        }
    }
    assert!(spawned >= 180, "spawned only {} of {}", spawned, n);
    assert!(spawned <= 430, "spawned {} of {}", spawned, n);
}
