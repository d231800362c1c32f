use motion_split::walk::{Entry, EntryKind, Walker};

fn s(x: &str) -> String {
    x.to_string()
}

/// An entry whose key is its own path.
fn e(x: &str) -> Entry {
    Entry { path: s(x), key: s(x) }
}

#[test]
fn breadth_first_with_jpg_filter() {
    let mut w = Walker::new(s("/r"), true);
    assert_eq!(w.next_path(), Some(s("/r")));
    w.record(EntryKind::Directory(vec![e("/r/a.jpg"), e("/r/sub"), e("/r/b.png"), e("/r/c.JPG")]));
    let mut order = Vec::new();
    while let Some(p) = w.next_path() {
        order.push(p.clone());
        let kind = if p == "/r/sub" {
            EntryKind::Directory(vec![e("/r/sub/d.jpg"), e("/r")])
        } else {
            EntryKind::File
        };
        w.record(kind);
    }
    assert_eq!(order, vec![s("/r/a.jpg"), s("/r/sub"), s("/r/b.png"), s("/r/c.JPG"), s("/r/sub/d.jpg")]);
    assert_eq!(w.into_files(), vec![s("/r/a.jpg"), s("/r/sub/d.jpg")]);
}

#[test]
fn unfiltered_walk_keeps_every_file() {
    let mut w = Walker::new(s("/r"), false);
    w.next_path().unwrap();
    w.record(EntryKind::Directory(vec![e("/r/x.txt"), e("/r/y")]));
    w.next_path().unwrap();
    w.record(EntryKind::File);
    w.next_path().unwrap();
    w.record(EntryKind::Other);
    assert_eq!(w.next_path(), None);
    assert_eq!(w.into_files(), vec![s("/r/x.txt")]);
}

#[test]
fn root_file_is_kept() {
    let mut w = Walker::new(s("/r/one.jpg"), true);
    w.next_path().unwrap();
    w.record(EntryKind::File);
    assert_eq!(w.next_path(), None);
    assert_eq!(w.into_files(), vec![s("/r/one.jpg")]);
}

#[test]
fn link_loop_is_walked_once() {
    let mut w = Walker::new(s("/r"), true);
    w.next_path().unwrap();
    // `/r/loop` links back to `/r`; `/r/alias.jpg` and `/r/a.jpg` are the same file.
    w.record(EntryKind::Directory(vec![
        e("/r/a.jpg"),
        Entry { path: s("/r/loop"), key: s("/r") },
        Entry { path: s("/r/alias.jpg"), key: s("/r/a.jpg") },
    ]));
    let mut steps = 0;
    while let Some(_) = w.next_path() {
        steps += 1;
        w.record(EntryKind::File);
    }
    assert_eq!(steps, 1);
    assert_eq!(w.into_files(), vec![s("/r/a.jpg")]);
}

#[test]
fn entry_queued_twice_is_walked_once() {
    let mut w = Walker::new(s("/r"), false);
    w.next_path().unwrap();
    w.record(EntryKind::Directory(vec![e("/r/d1"), e("/r/d2")]));
    assert_eq!(w.next_path(), Some(s("/r/d1")));
    w.record(EntryKind::Directory(vec![Entry { path: s("/r/d1/x"), key: s("/r/x") }]));
    assert_eq!(w.next_path(), Some(s("/r/d2")));
    w.record(EntryKind::Directory(vec![Entry { path: s("/r/d2/x"), key: s("/r/x") }]));
    assert_eq!(w.next_path(), Some(s("/r/d1/x")));
    w.record(EntryKind::File);
    assert_eq!(w.next_path(), None);
    assert_eq!(w.into_files(), vec![s("/r/d1/x")]);
}

#[test]
fn record_without_pending_entry_does_nothing() {
    let mut w = Walker::new(s("/r"), false);
    w.record(EntryKind::File);
    assert_eq!(w.next_path(), Some(s("/r")));
    w.record(EntryKind::File);
    w.record(EntryKind::File);
    assert_eq!(w.into_files(), vec![s("/r")]);
}
