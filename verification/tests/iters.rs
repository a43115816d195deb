use testbed::bed::iters::{
    iter_len, iter_message, seconds_to_smh, write_progress, write_summary, BarMove, IterProgress,
    IterTable,
};
use testbed::program::ids::VarNameId;
use testbed::program::names::VarNames;
use testbed::program::object::{Counter, Object};

fn obj(s: &str) -> Object {
    Object::new(s.to_string())
}

#[test]
fn seconds_split_into_seconds_minutes_and_hours() {
    assert_eq!(seconds_to_smh(0), (0, 0, 0));
    assert_eq!(seconds_to_smh(59), (59, 0, 0));
    assert_eq!(seconds_to_smh(3661), (1, 1, 1));
    assert_eq!(seconds_to_smh(360000), (0, 0, 100));
    assert_eq!(seconds_to_smh(u64::MAX), (15, 0, 5124095576030431));
}

#[test]
fn summary_is_one_line_of_text() {
    assert_eq!(
        write_summary("hosts", 2, 5, 3725, 59, "db1"),
        "[hosts = 2 / 5] : Eta 1h:2m:5s : Elapsed 0h:0m:59s : db1"
    );
}

#[test]
fn report_is_padded_to_the_length_it_had() {
    let lines = vec![b"ab".to_vec(), b"c".to_vec()];
    assert_eq!(write_progress(&lines, 0), b"ab\nc\n".to_vec());
    assert_eq!(write_progress(&lines, 8), b"ab\nc\n   ".to_vec());
    assert_eq!(write_progress(&lines, 5), b"ab\nc\n".to_vec());
    assert_eq!(write_progress(&vec![], 2), b"  ".to_vec());
}

#[test]
fn loops_show_their_length_and_their_message() {
    let list = Object::List(vec![obj("a"), Object::List(vec![])]);
    let counter = Object::Counter(Counter { offset: 2, start: 3, end: 8 });
    assert_eq!(iter_len(&list), 2);
    assert_eq!(iter_len(&counter), 5);
    assert_eq!(iter_len(&obj("s")), 0);
    assert_eq!(iter_message(&list, 0), Some("a".to_string()));
    assert_eq!(iter_message(&list, 1), None);
    assert_eq!(iter_message(&list, 2), None);
    assert_eq!(iter_message(&counter, 0), Some("5".to_string()));
    assert_eq!(iter_message(&obj("s"), 9), Some("s".to_string()));
}

#[test]
fn a_bar_is_reset_at_the_first_step() {
    let mut progress = IterProgress::new();
    assert_eq!(progress.update(), BarMove::Reset);
    progress.set(4);
    progress.set_message("four");
    assert_eq!(progress.update(), BarMove::Position(4));
    assert_eq!(progress.next_message, "four");
}

#[test]
fn a_loop_gets_its_bar_when_it_is_first_seen() {
    let mut names = VarNames::default();
    names.replace("host");
    let mut table = IterTable::new();
    let list = Object::List(vec![obj("a"), obj("b")]);
    let (at, made) = table.set_iter(&names, VarNameId(0), 0, &list);
    let made = made.unwrap();
    assert_eq!((at, made.name.as_str(), made.len), (0, "host", 2));
    assert_eq!(table.iters[0].1.next_message, "a");
    let (at, made) = table.set_iter(&names, VarNameId(5), 0, &Object::List(vec![]));
    assert_eq!((at, made.unwrap().name.as_str()), (1, "Unknown"));
    let (at, made) = table.set_iter(&names, VarNameId(0), 1, &list);
    assert!(made.is_none());
    assert_eq!(at, 0);
    assert_eq!(table.iters[0].1.next_idx, 1);
    assert_eq!(table.iters[0].1.next_message, "b");
    table.set_iter(&names, VarNameId(0), 2, &list);
    assert_eq!(table.iters[0].1.next_message, "b");
    assert_eq!(table.find(VarNameId(5)), Some(1));
    assert_eq!(table.find(VarNameId(6)), None);
}
