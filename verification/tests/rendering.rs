use minecord::generator::{numeral, render_field, Conf, MinefieldGenerator};
use minecord::minefield::{Field, Minefield};
use rand::rngs::StdRng;
use rand::SeedableRng;

fn conf(width: usize, height: usize, minecount: usize, open_first: bool) -> Conf {
    Conf { width, height, minecount, mine: String::from(":bomb:"), open_first }
}

#[test]
fn numerals_are_the_nine_names() {
    let names: Vec<&str> = (0..9).map(numeral).collect();
    assert_eq!(
        names,
        vec![":zero:", ":one:", ":two:", ":three:", ":four:", ":five:", ":six:", ":seven:", ":eight:"]
    );
}

#[test]
fn render_single_cell() {
    let mut generator = MinefieldGenerator::new(conf(1, 1, 0, false), StdRng::seed_from_u64(0));
    assert_eq!(generator.render(), "***1x1, 0 mines***\n||:zero:||");
}

#[test]
fn render_single_cell_open() {
    let mut generator = MinefieldGenerator::new(conf(1, 1, 0, true), StdRng::seed_from_u64(0));
    assert_eq!(generator.render(), "***1x1, 0 mines***\n:zero:");
}

#[test]
fn render_two_cells_one_mine() {
    for seed in 0..10 {
        let mut generator = MinefieldGenerator::new(conf(2, 1, 1, false), StdRng::seed_from_u64(seed));
        let text = generator.render();
        assert!(
            text == "***2x1, 1 mines***\n||:bomb:||||:one:||"
                || text == "***2x1, 1 mines***\n||:one:||||:bomb:||"
        );
    }
}

#[test]
fn render_two_cells_one_mine_open() {
    for seed in 0..10 {
        let mut generator = MinefieldGenerator::new(conf(2, 1, 1, true), StdRng::seed_from_u64(seed));
        let text = generator.render();
        assert!(
            text == "***2x1, 1 mines***\n||:bomb:||:one:" || text == "***2x1, 1 mines***\n:one:||:bomb:||"
        );
    }
}

#[test]
fn render_open_board_without_mines() {
    let mut generator = MinefieldGenerator::new(conf(5, 5, 0, true), StdRng::seed_from_u64(11));
    let text = generator.render();
    let lines: Vec<&str> = text.split('\n').collect();
    assert_eq!(lines.len(), 6);
    assert_eq!(lines[0], "***5x5, 0 mines***");
    let mut bare = 0;
    for line in &lines[1..] {
        let wrapped = line.matches("||:zero:||").count();
        assert!(wrapped == 5 || wrapped == 4);
        if wrapped == 4 {
            bare += 1;
            assert_eq!(line.replace("||:zero:||", ""), ":zero:");
        } else {
            assert_eq!(line.replace("||:zero:||", ""), "");
        }
    }
    assert_eq!(bare, 1);
}

#[test]
fn render_full_board() {
    let mut generator = MinefieldGenerator::new(conf(3, 3, 9, false), StdRng::seed_from_u64(2));
    let row = "||:bomb:||||:bomb:||||:bomb:||";
    assert_eq!(generator.render(), format!("***3x3, 9 mines***\n{}\n{}\n{}", row, row, row));
}

#[test]
fn render_keeps_the_configuration_and_counts_mines() {
    let mut generator = MinefieldGenerator::new(conf(12, 10, 37, true), StdRng::seed_from_u64(8));
    let text = generator.render();
    assert_eq!(generator.conf.width, 12);
    assert_eq!(generator.conf.minecount, 37);
    let lines: Vec<&str> = text.split('\n').collect();
    assert_eq!(lines.len(), 11);
    assert_eq!(lines[0], "***12x10, 37 mines***");
    assert_eq!(text.matches("||:bomb:||").count(), 37);
    assert_eq!(text.matches("||").count(), 2 * (120 - 1));
}

#[test]
fn render_field_writes_every_cell() {
    let mut grid = Minefield::new(3, 2);
    grid.set([0, 0], Field::Mined);
    grid.set([2, 1], Field::Mined);
    let text = render_field(&conf(3, 2, 2, false), &grid, None);
    assert_eq!(
        text,
        "***3x2, 2 mines***\n||:bomb:||||:two:||||:one:||\n||:one:||||:two:||||:bomb:||"
    );
}

#[test]
fn render_field_shows_the_opened_cell_bare() {
    let mut grid = Minefield::new(3, 2);
    grid.set([0, 0], Field::Mined);
    let text = render_field(&conf(3, 2, 1, true), &grid, Some(([2, 0], 0)));
    assert_eq!(text, "***3x2, 1 mines***\n||:bomb:||||:one:||:zero:\n||:one:||||:one:||||:zero:||");
}

#[test]
fn render_field_uses_the_mine_text() {
    let mut grid = Minefield::new(1, 2);
    grid.set([0, 1], Field::Mined);
    let custom = Conf { width: 1, height: 2, minecount: 1, mine: String::from("X"), open_first: false };
    assert_eq!(render_field(&custom, &grid, None), "***1x2, 1 mines***\n||:one:||\n||X||");
}

#[test]
fn render_field_header_in_decimal() {
    let grid = Minefield::new(1, 0);
    let wide = conf(1203, 0, 18446744073709551615, false);
    assert_eq!(render_field(&wide, &grid, None), "***1203x0, 18446744073709551615 mines***\n");
    assert_eq!(render_field(&conf(10, 90, 0, false), &grid, None), "***10x90, 0 mines***\n");
}

#[test]
fn generator_with_thread_rng_renders() {
    let mut generator = MinefieldGenerator::with_thread_rng(conf(4, 3, 5, true));
    let text = generator.render();
    assert!(text.starts_with("***4x3, 5 mines***\n"));
    assert_eq!(text.matches(":bomb:").count(), 5);
    assert_eq!(text.split('\n').count(), 4);
}

#[test]
fn can_render_accepts_what_fits() {
    assert!(conf(1, 1, 0, false).can_render());
    assert!(conf(1, 1, 0, true).can_render());
    assert!(conf(1, 1, 1, false).can_render());
    assert!(conf(3, 3, 9, false).can_render());
    assert!(conf(3, 3, 8, true).can_render());
    assert!(conf(7, 0, 0, false).can_render());
    assert!(conf(usize::MAX - 1, 1, 0, false).can_render());
    assert!(conf(usize::MAX, 1, 0, false).can_render());
    assert!(conf(usize::MAX, 1, usize::MAX - 1, false).can_render());
}

#[test]
fn can_render_rejects_what_cannot_be_laid_out() {
    assert!(!conf(0, 3, 0, false).can_render());
    assert!(!conf(0, 3, 0, true).can_render());
    assert!(!conf(3, 3, 10, false).can_render());
    assert!(!conf(3, 3, 9, true).can_render());
    assert!(!conf(7, 0, 0, true).can_render());
    assert!(!conf(usize::MAX, 2, 0, false).can_render());
    assert!(!conf(1 << 40, 1 << 40, 0, false).can_render());
}

#[test]
fn can_render_at_the_limit_of_the_draw() {
    let limit = u32::MAX as usize;
    assert!(conf(limit, 1, limit, false).can_render());
    assert!(conf(limit, 1, limit - 1, true).can_render());
    assert!(conf(65536, 65536, 4294967295, false).can_render());
    assert!(!conf(65536, 65536, 4294967296, false).can_render());
    assert!(!conf(65536, 65537, 65536 * 65537, false).can_render());
    assert!(!conf(65536, 65536, 0, true).can_render());
    assert!(!conf(usize::MAX, 1, usize::MAX, false).can_render());
    assert!(!conf(usize::MAX, 1, 0, true).can_render());
}
