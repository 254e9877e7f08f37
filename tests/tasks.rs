use tdo::command::{editor_program, local_file_name, resolve_path, Command, FileChoice, PathError};
use tdo::render::Glyphs;
use tdo::task::{Status, Task};
use tdo::tasks::Tasks;
use tdo::text::split_lines;

fn lines(v: &[&str]) -> Vec<String> {
    v.iter().map(|s| s.to_string()).collect()
}

fn ids(t: &Tasks) -> Vec<usize> {
    t.0.iter().map(|x| x.id).collect()
}

#[test]
fn parses_example_file() {
    let t = Tasks::from_text("- [ ] buy milk\n- [x] pay bills\nrandom note");
    assert_eq!(t.len(), 3);
    assert_eq!((t.0[0].id, t.0[0].text.as_str(), t.0[0].status), (1, "buy milk", Status::Todo));
    assert_eq!((t.0[1].id, t.0[1].text.as_str(), t.0[1].status), (2, "pay bills", Status::Done));
    assert_eq!((t.0[2].id, t.0[2].text.as_str(), t.0[2].status), (3, "random note", Status::Other));
}

#[test]
fn example_file_sorts_and_serializes() {
    let mut t = Tasks::from_text("- [ ] buy milk\n- [x] pay bills\nrandom note");
    t.sort();
    assert_eq!(ids(&t), vec![1, 2, 3]);
    assert_eq!(t.to_file(), "- [ ] buy milk\n- [x] pay bills\n- random note");
}

#[test]
fn parses_marker_without_space() {
    let t = Task::parse(1, "-[x]   finish report   ");
    assert_eq!(t.text, "finish report");
    assert_eq!(t.status, Status::Done);
}

#[test]
fn parses_todo_and_strips_once() {
    let t = Task::parse(4, "- [ ]  [ ] twice ");
    assert_eq!(t.id, 4);
    assert_eq!(t.status, Status::Todo);
    assert_eq!(t.text, "[ ] twice");
    let indented = Task::parse(5, "  - [ ] x");
    assert_eq!(indented.status, Status::Other);
    assert_eq!(indented.text, "- [ ] x");
    let o = Task::parse(2, "--  dash");
    assert_eq!(o.status, Status::Other);
    assert_eq!(o.text, "-  dash");
}

#[test]
fn round_trips_marked_lines() {
    for line in ["- [ ] a task", "- [x] done one", "- [ ] "] {
        let t = Task::parse(1, line);
        assert_eq!(t.to_file(), line);
    }
    let t = Task::parse(1, "- [x] done one");
    assert_eq!(Task::parse(1, &t.to_file()), t);
}

#[test]
fn other_lines_gain_a_dash() {
    let t = Task::parse(1, "   plain note  ");
    assert_eq!(t.status, Status::Other);
    assert_eq!(t.to_file(), "- plain note");
}

#[test]
fn ids_follow_lines() {
    let t = Tasks::new(lines(&["a", "- [x] b", "", "- [ ] c"]));
    assert_eq!(ids(&t), vec![1, 2, 3, 4]);
    assert_eq!(Tasks::new(Vec::new()).len(), 0);
}

#[test]
fn sort_orders_by_status_then_id() {
    let mut t = Tasks::new(lines(&["note", "- [x] d1", "- [ ] t1", "- [x] d2", "- [ ] t2"]));
    t.sort();
    assert_eq!(ids(&t), vec![3, 5, 2, 4, 1]);
    let before = ids(&t);
    t.sort();
    assert_eq!(ids(&t), before);
}

#[test]
fn sort_keeps_order_of_equal_keys() {
    let mut t = Tasks::new(lines(&["- [ ] a"]));
    t.add(Task { id: 1, text: "b".to_string(), status: Status::Todo });
    t.add(Task { id: 0, text: "c".to_string(), status: Status::Done });
    t.sort();
    let texts: Vec<&str> = t.0.iter().map(|x| x.text.as_str()).collect();
    assert_eq!(texts, vec!["a", "b", "c"]);
}

#[test]
fn compare_orders_statuses() {
    assert!(Status::Todo < Status::Done);
    assert!(Status::Done < Status::Other);
    assert_eq!(Status::Other.compare(&Status::Other), std::cmp::Ordering::Equal);
    let a = Task { id: 9, text: "x".to_string(), status: Status::Todo };
    let b = Task { id: 1, text: "y".to_string(), status: Status::Done };
    assert!(a < b);
    assert!(a.le(&b));
    assert!(!b.le(&a));
}

#[test]
fn delete_present_and_absent() {
    let mut t = Tasks::new(lines(&["a", "b", "c"]));
    let gone = t.delete_id(2).unwrap();
    assert_eq!(gone.text, "b");
    assert_eq!(ids(&t), vec![1, 3]);
    assert!(t.delete_id(7).is_none());
    assert_eq!(ids(&t), vec![1, 3]);
    assert_eq!(t.index_of(3), Some(1));
    assert_eq!(t.index_of(2), None);
}

#[test]
fn free_text_entries_get_len_plus_two() {
    let mut t = Tasks::from_text("- [ ] buy milk\n- [x] pay bills\nrandom note");
    assert!(t.add_entry(false, "first".to_string()));
    assert!(t.add_entry(false, "second".to_string()));
    assert_eq!(t.0[3].id, 5);
    assert_eq!(t.0[4].id, 6);
    assert_eq!(t.0[4].status, Status::Todo);
    assert!(!t.add_entry(true, "third".to_string()));
    assert!(!t.add_entry(false, String::new()));
    assert_eq!(t.len(), 5);
}

#[test]
fn from_entry_rules() {
    assert!(Task::from_entry(0, false, String::new()).is_none());
    assert!(Task::from_entry(0, true, "x".to_string()).is_none());
    let t = Task::from_entry(0, false, "x".to_string()).unwrap();
    assert_eq!((t.id, t.text.as_str(), t.status), (2, "x", Status::Todo));
}

#[test]
fn rows_render_and_read_back() {
    let g = Glyphs::plain();
    let t = Tasks::new(lines(&["- [ ] buy milk", "- [x] pay bills", "note"]));
    assert_eq!(
        t.render(&g),
        "    1 | \u{2715} buy milk\n    2 | \u{2713} pay bills\n    3 | note\n"
    );
    let wide = Task { id: 1234567, text: "w".to_string(), status: Status::Other };
    assert_eq!(wide.render(&g), "1234567 | w");
    assert_eq!(Task::parse_id(&wide.render(&g)), Some(1234567));
    assert_eq!(Task::parse_id(&t.0[1].render(&g)), Some(2));
}

#[test]
fn parse_id_cases() {
    assert_eq!(Task::parse_id("  42 | x"), Some(42));
    assert_eq!(Task::parse_id("+7 rest"), Some(7));
    assert_eq!(Task::parse_id("-3"), None);
    assert_eq!(Task::parse_id("+"), None);
    assert_eq!(Task::parse_id("abc 1"), None);
    assert_eq!(Task::parse_id("   "), None);
    assert_eq!(Task::parse_id("12a"), None);
    assert_eq!(Task::parse_id("99999999999999999999999"), None);
    assert_eq!(Task::parse_id("18446744073709551615"), Some(usize::MAX));
}

#[test]
fn colored_glyphs_carry_escapes() {
    let g = Glyphs::colored();
    assert_eq!(g.todo, "\u{1b}[31m\u{2715}\u{1b}[0m");
    assert_eq!(g.done, "\u{1b}[32m\u{2713}\u{1b}[0m");
    assert_eq!(g.menu_todo, "\u{1b}[31mx\u{1b}[0m");
    assert_eq!(g.menu_other, "\u{1b}[33m~\u{1b}[0m");
    assert_eq!(
        g.status_menu(),
        "\u{1b}[32m\u{2713}\u{1b}[0m done\n\u{1b}[31mx\u{1b}[0m todo\n\u{1b}[33m~\u{1b}[0m other\n"
    );
    let t = Task { id: 3, text: "t".to_string(), status: Status::Todo };
    assert_eq!(t.render(&g), "    3 | \u{1b}[31m\u{2715}\u{1b}[0m t");
}

#[test]
fn status_menu_plain() {
    assert_eq!(Glyphs::plain().status_menu(), "\u{2713} done\nx todo\n~ other\n");
}

#[test]
fn status_choices() {
    assert_eq!(Status::from_choice("\u{2713} done"), Some(Status::Done));
    assert_eq!(Status::from_choice("x todo"), Some(Status::Todo));
    assert_eq!(Status::from_choice("~ other"), Some(Status::Other));
    assert_eq!(Status::from_choice("done todo"), Some(Status::Todo));
    assert_eq!(Status::from_choice("nothing"), None);
    let mut t = Tasks::new(lines(&["- [ ] a", "b"]));
    assert!(t.apply_status_choice(2, "\u{2713} done"));
    assert_eq!(t.0[1].status, Status::Done);
    assert!(!t.apply_status_choice(5, "x todo"));
    assert!(!t.apply_status_choice(1, "?"));
    assert_eq!(t.0[0].status, Status::Todo);
}

#[test]
fn text_edits() {
    let mut t = Tasks::new(lines(&["- [ ] a", "b"]));
    assert_eq!(t.text_of(1), Some("a".to_string()));
    assert!(t.apply_text_edit(1, false, "new".to_string()));
    assert_eq!(t.0[0].text, "new");
    assert!(!t.apply_text_edit(1, true, "other".to_string()));
    assert!(!t.apply_text_edit(1, false, String::new()));
    assert_eq!(t.0[0].text, "new");
    assert!(t.set_status_of(2, Status::Done));
    assert!(t.set_text_of(2, "c".to_string()));
    assert_eq!(t.to_file(), "- [ ] new\n- [x] c");
    assert_eq!(t.text_of(9), None);
}

#[test]
fn delete_answers() {
    let mut t = Tasks::new(lines(&["a", "b"]));
    assert!(t.apply_delete_answer(1, "no").is_none());
    assert!(t.apply_delete_answer(1, "yes ").is_none());
    assert_eq!(t.len(), 2);
    assert_eq!(t.apply_delete_answer(1, "yes").unwrap().text, "a");
    assert_eq!(ids(&t), vec![2]);
}

#[test]
fn lines_split_like_std() {
    assert_eq!(split_lines("a\r\nb\n"), lines(&["a", "b"]));
    assert_eq!(split_lines("a\n\nb"), lines(&["a", "", "b"]));
    assert_eq!(split_lines(""), Vec::<String>::new());
    assert_eq!(split_lines("\n"), lines(&[""]));
    assert_eq!(split_lines("x\r"), lines(&["x\r"]));
}

#[test]
fn commands_by_name() {
    assert_eq!(Command::from_name("view"), Some(Command::View));
    assert_eq!(Command::from_name("set"), Some(Command::SetStatus));
    assert_eq!(Command::from_name("clean"), None);
    assert_eq!(Command::menu(), "view\nadd\nremove\nset\nmodify\neditor\nsort");
    assert_eq!(Command::SetStatus.name(), "set");
    assert!(Command::Sort.rewrites_file(false));
    assert!(!Command::View.rewrites_file(true));
    assert!(Command::Add.rewrites_file(true));
    assert!(!Command::Add.rewrites_file(false));
    assert!(Command::View.sorts());
    assert!(!Command::Editor.sorts());
}

#[test]
fn path_choices() {
    assert!(matches!(resolve_path(true, None, false), Ok(FileChoice::Local)));
    match resolve_path(false, Some("/x/t.md".to_string()), true) {
        Ok(FileChoice::Default(p)) => assert_eq!(p, "/x/t.md"),
        _ => panic!("expected the default file"),
    }
    assert_eq!(resolve_path(false, Some("/x".to_string()), false).unwrap_err(), PathError::InvalidDefault);
    assert_eq!(resolve_path(false, None, true).unwrap_err(), PathError::NotFound);
    assert_eq!(PathError::InvalidDefault.message(), "path does not lead to a valid file");
    assert_eq!(local_file_name(), ".todo.md");
    assert_eq!(editor_program(None), "vi");
    assert_eq!(editor_program(Some("nano".to_string())), "nano");
}

#[test]
fn written_lines_read_back() {
    for line in ["  [ ] x", "[x]done", "- note ", "", "-", "- [ ]"] {
        let t = Task::parse(3, line);
        let again = Task::parse(3, &t.to_file());
        assert_eq!(again, t);
        assert_eq!(again.to_file(), t.to_file());
    }
}

#[test]
fn pick_steps() {
    assert_eq!(Task::id_from_pick(true, Some("  2 | x".to_string())), None);
    assert_eq!(Task::id_from_pick(false, None), None);
    assert_eq!(Task::id_from_pick(false, Some("  2 | x".to_string())), Some(2));
    assert_eq!(Command::from_pick(true, Some("view".to_string())), None);
    assert_eq!(Command::from_pick(false, Some("sort".to_string())), Some(Command::Sort));
    assert_eq!(Command::from_pick(false, Some("nope".to_string())), None);
    let mut t = Tasks::new(lines(&["- [ ] a", "b"]));
    assert!(!t.apply_status_pick(1, true, Some("\u{2713} done".to_string())));
    assert!(!t.apply_status_pick(1, false, None));
    assert_eq!(t.0[0].status, Status::Todo);
    assert!(t.apply_status_pick(1, false, Some("\u{2713} done".to_string())));
    assert_eq!(t.0[0].status, Status::Done);
    assert!(t.apply_delete_pick(1, true, Some("yes".to_string())).is_none());
    assert!(t.apply_delete_pick(1, false, Some("no".to_string())).is_none());
    assert_eq!(t.len(), 2);
    assert_eq!(t.apply_delete_pick(1, false, Some("yes".to_string())).unwrap().text, "a");
    assert_eq!(ids(&t), vec![2]);
}
