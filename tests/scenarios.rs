use traildb::dict::{bytes_eq, register_fields};
use traildb::error::{status_result, Error};
use traildb::order::{sort_events, EventRecord};
use traildb::{Constructor, Db, Event};

fn uuid_of(n: u8) -> [u8; 16] {
    let mut u = [0u8; 16];
    u[0] = n;
    u[15] = 0xa5;
    u
}

fn build(fields: &[&str], events: &[(u8, u64, &[&str])]) -> Db {
    let mut cons = Constructor::new("store", fields).unwrap();
    for (u, ts, vals) in events {
        cons.add(&uuid_of(*u), *ts, vals).unwrap();
    }
    cons.finalize()
}

fn values_of(db: &Db, event: &Event) -> Vec<Vec<u8>> {
    event.items.iter().map(|i| db.get_item_value(*i).unwrap().to_vec()).collect()
}

#[test]
fn single_event_scenario() {
    let db = build(&["user", "event"], &[(1, 100, &["alice", "click"])]);
    assert_eq!(db.num_fields(), 3);
    assert_eq!(db.num_trails(), 1);
    assert_eq!(db.num_events(), 1);
    assert_eq!(db.min_timestamp(), 100);
    assert_eq!(db.max_timestamp(), 100);
    assert_eq!(db.version(), 1);
    let mut trail = db.get_trail(0).unwrap();
    assert_eq!(trail.id, 0);
    let event = trail.next().unwrap();
    assert_eq!(event.timestamp, 100);
    assert_eq!(values_of(&db, &event), vec![b"alice".to_vec(), b"click".to_vec()]);
    assert!(trail.next().is_none());
    assert!(trail.next().is_none());
}

#[test]
fn field_names_resolve() {
    let db = build(&["user", "event"], &[(1, 100, &["alice", "click"])]);
    assert_eq!(db.get_field_name(0).unwrap(), "time");
    assert_eq!(db.get_field_name(1).unwrap(), "user");
    assert_eq!(db.get_field_name(2).unwrap(), "event");
    assert_eq!(db.get_field_name(3), Err(Error::UnknownField));
}

#[test]
fn item_encoding_is_exact() {
    let db = build(&["user", "event"], &[(1, 5, &["alice", "click"]), (1, 6, &["bob", "click"])]);
    let mut trail = db.get_trail(0).unwrap();
    let first = trail.next().unwrap().to_owned();
    let second = trail.next().unwrap().to_owned();
    // field in the low eight bits, value code above
    assert_eq!(first.items, vec![1, 2]);
    assert_eq!(second.items, vec![256 + 1, 2]);
    assert_eq!(db.get_item_value(0), Err(Error::UnknownField));
    assert_eq!(db.get_item_value(3), Err(Error::UnknownField));
    assert_eq!(db.get_item_value(2 * 256 + 1), Err(Error::UnknownField));
    assert_eq!(db.get_item_value(256 + 1).unwrap(), b"bob");
}

#[test]
fn append_scenario() {
    let s1 = build(&["a"], &[(1, 10, &["x"]), (1, 11, &["y"])]);
    let s2 = build(&["a"], &[(2, 20, &["x"]), (2, 21, &["z"]), (2, 22, &["z"])]);
    let mut cons = Constructor::new("s3", &["a"]).unwrap();
    cons.append(&s1).unwrap();
    cons.append(&s2).unwrap();
    let s3 = cons.finalize();
    assert_eq!(s3.num_trails(), 2);
    assert_eq!(s3.num_events(), 5);
    assert_eq!(s3.min_timestamp(), 10);
    assert_eq!(s3.max_timestamp(), 22);
    let t = s3.get_trail_id(&uuid_of(2)).unwrap();
    assert_eq!(t, 1);
    let mut trail = s3.get_trail(t).unwrap();
    let e = trail.next().unwrap();
    assert_eq!(values_of(&s3, &e), vec![b"x".to_vec()]);
    let e = trail.next().unwrap();
    assert_eq!(values_of(&s3, &e), vec![b"z".to_vec()]);
}

#[test]
fn append_fields_mismatch() {
    let s1 = build(&["a"], &[(1, 10, &["x"])]);
    let mut cons = Constructor::new("s3", &["b"]).unwrap();
    assert_eq!(cons.append(&s1), Err(Error::AppendFieldsMismatch));
    let mut cons = Constructor::new("s3", &["a", "b"]).unwrap();
    assert_eq!(cons.append(&s1), Err(Error::AppendFieldsMismatch));
    assert_eq!(cons.finalize().num_events(), 0);
}

#[test]
fn value_count_mismatch() {
    let mut cons = Constructor::new("s", &["a", "b"]).unwrap();
    assert_eq!(cons.add(&uuid_of(1), 1, &["x"]), Err(Error::UnknownField));
    assert_eq!(cons.add(&uuid_of(1), 1, &["x", "y", "z"]), Err(Error::UnknownField));
    assert_eq!(cons.add(&uuid_of(1), 1, &[]), Err(Error::UnknownField));
    let db = cons.finalize();
    assert_eq!(db.num_events(), 0);
    assert_eq!(db.num_trails(), 0);
    assert_eq!(db.min_timestamp(), 0);
    assert_eq!(db.max_timestamp(), 0);
}

#[test]
fn limits_are_enforced() {
    let mut cons = Constructor::new("s", &["a"]).unwrap();
    assert_eq!(cons.add(&uuid_of(1), 140737488355328, &["x"]), Err(Error::TimestampTooLarge));
    assert!(cons.add(&uuid_of(1), 140737488355327, &["x"]).is_ok());
    let long = "v".repeat(1048577);
    assert_eq!(cons.add(&uuid_of(1), 1, &[long.as_str()]), Err(Error::ValueTooLong));
    let edge = "v".repeat(1048576);
    assert!(cons.add(&uuid_of(1), 1, &[edge.as_str()]).is_ok());
    let db = cons.finalize();
    assert_eq!(db.num_events(), 2);
    assert_eq!(db.max_timestamp(), 140737488355327);
}

#[test]
fn field_name_errors() {
    let long_path = "p".repeat(2048);
    assert!(matches!(Constructor::new(&long_path, &["a"]), Err(Error::PathTooLong)));
    assert!(matches!(Constructor::new("s", &["a", "a"]), Err(Error::DuplicateFields)));
    assert!(matches!(Constructor::new("s", &["time"]), Err(Error::InvalidFieldname)));
    assert!(matches!(Constructor::new("s", &[""]), Err(Error::InvalidFieldname)));
    assert!(Constructor::new("s", &["a b", "été", "Time", "timestamp"]).is_ok());
    let long_name = "n".repeat(4096);
    assert!(Constructor::new("s", &[long_name.as_str()]).is_ok());
    let many: Vec<String> = (0..255).map(|i| format!("f{}", i)).collect();
    let many_refs: Vec<&str> = many.iter().map(|s| s.as_str()).collect();
    assert!(matches!(Constructor::new("s", &many_refs), Err(Error::TooManyFields)));
    assert!(Constructor::new("s", &many_refs[..254]).is_ok());
    assert_eq!(register_fields(&["ok_name-1", "Other"]), None);
    assert_eq!(register_fields(&["x", "y", "x"]), Some(Error::DuplicateFields));
}

#[test]
fn events_come_out_time_ordered() {
    let db = build(
        &["k"],
        &[(7, 30, &["c"]), (7, 10, &["a"]), (7, 20, &["b1"]), (7, 20, &["b2"]), (7, 5, &["z"])],
    );
    let mut trail = db.get_trail(0).unwrap();
    let mut seen = Vec::new();
    while let Some(e) = trail.next() {
        seen.push((e.timestamp, values_of(&db, &e)[0].clone()));
    }
    assert_eq!(
        seen,
        vec![
            (5, b"z".to_vec()),
            (10, b"a".to_vec()),
            (20, b"b1".to_vec()),
            (20, b"b2".to_vec()),
            (30, b"c".to_vec()),
        ]
    );
    assert_eq!(db.min_timestamp(), 5);
    assert_eq!(db.max_timestamp(), 30);
}

#[test]
fn bounds_over_all_trails() {
    let db = build(&["k"], &[(1, 50, &["a"]), (2, 7, &["a"]), (3, 90, &["a"]), (2, 60, &["a"])]);
    assert_eq!(db.min_timestamp(), 7);
    assert_eq!(db.max_timestamp(), 90);
}

#[test]
fn dictionary_is_stable() {
    let db = build(&["k", "m"], &[(1, 1, &["same", "same"]), (2, 2, &["same", "other"])]);
    let a = db.get_trail(0).unwrap().next().unwrap().to_owned();
    let b = db.get_trail(1).unwrap().next().unwrap().to_owned();
    assert_eq!(a.items[0], b.items[0]);
    assert_ne!(a.items[1], b.items[1]);
    // one value in two fields gives two different items
    assert_ne!(a.items[0], a.items[1]);
}

#[test]
fn cursor_reuse_has_no_leakage() {
    let db = build(
        &["k"],
        &[(1, 1, &["a1"]), (1, 2, &["a2"]), (1, 3, &["a3"]), (2, 9, &["b1"]), (2, 8, &["b0"])],
    );
    let mut cursor = db.cursor();
    assert_eq!(cursor.len(), 0);
    assert!(cursor.next().is_none());
    cursor.get_trail(0).unwrap();
    assert_eq!(cursor.len(), 3);
    let mut a = Vec::new();
    while let Some(e) = cursor.next() {
        a.push(e.timestamp);
    }
    assert_eq!(a, vec![1, 2, 3]);
    cursor.get_trail(1).unwrap();
    assert_eq!(cursor.len(), 2);
    let mut b = Vec::new();
    while let Some(e) = cursor.next() {
        b.push(e.timestamp);
    }
    assert_eq!(b, vec![8, 9]);
    // a half-read trail is restarted from its first event
    cursor.get_trail(0).unwrap();
    assert_eq!(cursor.next().unwrap().timestamp, 1);
    cursor.get_trail(1).unwrap();
    assert_eq!(cursor.next().unwrap().timestamp, 8);
    assert_eq!(cursor.get_trail(2), Err(Error::InvalidTrailId));
    assert_eq!(cursor.next().unwrap().timestamp, 9);
}

#[test]
fn iterator_yields_every_trail_once() {
    let db = build(&["k"], &[(3, 1, &["a"]), (1, 1, &["a"]), (2, 1, &["a"]), (1, 2, &["b"])]);
    let mut it = db.iter();
    let mut ids = Vec::new();
    let mut counts = Vec::new();
    while let Some(mut trail) = it.next() {
        assert_eq!(trail.id(), trail.id);
        ids.push(trail.id);
        let mut n = 0;
        while trail.next().is_some() {
            n += 1;
        }
        counts.push(n);
    }
    assert_eq!(ids, vec![0, 1, 2]);
    assert_eq!(db.trail_ids(), vec![0, 1, 2]);
    assert_eq!(build(&["k"], &[]).trail_ids(), Vec::<u64>::new());
    assert_eq!(counts, vec![1, 2, 1]);
    assert!(it.next().is_none());
    assert!(db.iter().next().is_some());
    assert!(db.get_trail(3).is_none());
}

#[test]
fn uuid_lookup_misses() {
    let db = build(&["k"], &[(1, 1, &["a"])]);
    assert_eq!(db.get_trail_id(&uuid_of(9)), None);
    assert_eq!(db.get_uuid(1), None);
    assert_eq!(db.get_uuid(0), Some(&uuid_of(1)));
}

#[test]
fn error_codes_round_trip() {
    assert_eq!(Error::Nomem.code(), -2);
    assert_eq!(Error::InvalidUuid.code(), -11);
    assert_eq!(Error::TrailTooLong.code(), -265);
    assert_eq!(Error::OnlyDiffFilter.code(), -513);
    assert_eq!(Error::from_code(-264), Some(Error::TimestampTooLarge));
    assert_eq!(Error::from_code(-1), None);
    assert_eq!(Error::from_code(0), None);
    assert_eq!(Error::IoOpen.name(), "Error::IoOpen");
    assert_eq!(Error::AppendFieldsMismatch.name(), "Error::AppendFieldsMismatch");
    assert_eq!(Error::Nomem.name(), "Error::Nomem");
    assert_eq!(status_result(0), Some(Ok(())));
    assert_eq!(status_result(-131), Some(Err(Error::IncompatibleVersion)));
    assert_eq!(status_result(-1000), None);
}

#[test]
fn sort_is_stable() {
    let v = vec![
        EventRecord { timestamp: 3, items: vec![1] },
        EventRecord { timestamp: 1, items: vec![2] },
        EventRecord { timestamp: 3, items: vec![3] },
        EventRecord { timestamp: 1, items: vec![4] },
    ];
    let r = sort_events(v);
    let got: Vec<(u64, u64)> = r.iter().map(|e| (e.timestamp, e.items[0])).collect();
    assert_eq!(got, vec![(1, 2), (1, 4), (3, 1), (3, 3)]);
    assert!(bytes_eq(b"ab", b"ab"));
    assert!(!bytes_eq(b"ab", b"abc"));
}
