use tickdb::bootstrap::{init_dbs, init_state};
use tickdb::codec::file_count;
use tickdb::disk::{DiskEntry, DiskSnapshot, FileWrite};
use tickdb::dispatch::{disk_demand, gen_response, Response};
use tickdb::state::{Settings, State};
use tickdb::wire::frame_response;

fn settings(autoflush: bool, interval: u32) -> Settings {
    Settings { autoflush, dtf_folder: "/tmp".to_string(), flush_interval: interval }
}

fn fresh() -> State {
    init_state(&settings(false, 1000), false)
}

fn snap_without_files(line: &str, st: &State) -> DiskSnapshot {
    let names = disk_demand(line, st);
    DiskSnapshot {
        entries: names.into_iter().map(|name| DiskEntry { name, bytes: None }).collect(),
    }
}

fn run(st: &mut State, line: &str) -> (Response, Vec<FileWrite>) {
    let snap = snap_without_files(line, st);
    gen_response(line, st, &snap)
}

fn text_of(r: &Response) -> String {
    match r {
        Response::Text(s) => s.clone(),
        _ => panic!("expected a text response"),
    }
}

fn is_error(r: &Response) -> bool {
    matches!(r, Response::Error(_))
}

#[test]
fn ping_pongs() {
    let mut st = fresh();
    let (r, w) = run(&mut st, "PING");
    assert_eq!(text_of(&r), "PONG.\n");
    assert!(w.is_empty());
}

#[test]
fn create_shows_in_info() {
    let mut st = fresh();
    let (r, _) = run(&mut st, "CREATE foo");
    assert_eq!(text_of(&r), "Created DB `foo`.\n");
    let (info, _) = run(&mut st, "INFO");
    let info = text_of(&info);
    assert!(info.contains("{\"name\": \"foo\", \"in_memory\": false, \"count\": 0}"));
}

#[test]
fn use_missing_store_fails_and_add_targets_selected() {
    let mut st = fresh();
    let (r, _) = run(&mut st, "USE nosuch");
    assert!(is_error(&r));

    let (r, _) = run(&mut st, "CREATE a");
    assert_eq!(text_of(&r), "Created DB `a`.\n");
    let (r, _) = run(&mut st, "USE a");
    assert_eq!(text_of(&r), "SWITCHED TO DB `a`.\n");
    let (r, _) = run(&mut st, "ADD 1000.000, 1, t, t, 1.0, 2.0;");
    assert_eq!(text_of(&r), "1\n");
    let (info, _) = run(&mut st, "INFO");
    let info = text_of(&info);
    assert!(info.contains("{\"name\": \"a\", \"in_memory\": true, \"count\": 1}"));
    assert!(info.contains("{\"name\": \"default\", \"in_memory\": true, \"count\": 0}"));
}

#[test]
fn bulk_add_grows_store_by_each_line() {
    let mut st = fresh();
    let (r, _) = run(&mut st, "BULKADD");
    assert_eq!(text_of(&r), "");
    let (r, _) = run(&mut st, "1000.000, 1, t, t, 1.0, 2.0;");
    assert_eq!(text_of(&r), "");
    let (r, _) = run(&mut st, "1001.000, 2, t, f, 1.5, 2.5;");
    assert_eq!(text_of(&r), "");
    let (r, _) = run(&mut st, "DDAKLUB");
    assert_eq!(text_of(&r), "1\n");
    let (info, _) = run(&mut st, "INFO");
    assert!(text_of(&info).contains("\"count\": 2"));
}

#[test]
fn bulk_add_rejects_bad_line() {
    let mut st = fresh();
    run(&mut st, "BULKADD");
    let (r, _) = run(&mut st, "garbage;");
    assert!(is_error(&r));
    let (r, _) = run(&mut st, "DDAKLUB");
    assert_eq!(text_of(&r), "1\n");
}

#[test]
fn get_all_as_json_renders_arrays() {
    let mut st = fresh();
    let (r, _) = run(&mut st, "GET ALL AS JSON");
    assert_eq!(text_of(&r), "[]\n");
    run(&mut st, "ADD 1000.000, 1, t, t, 1.0, 2.0;");
    let (r, _) = run(&mut st, "GET ALL AS JSON");
    let body = text_of(&r);
    assert_eq!(body.matches("{\"ts\":").count(), 1);
    assert!(body.contains("\"ts\":1000000"));
    assert!(body.contains("\"price\":1.0"));
    assert!(body.starts_with('['));
    assert!(body.ends_with("]\n"));
}

#[test]
fn status_byte_marks_errors() {
    let mut st = fresh();
    let (ok, _) = run(&mut st, "PING");
    let framed = frame_response(&ok);
    assert_eq!(framed[0], 0x01);
    let len = u64::from_be_bytes(framed[1..9].try_into().unwrap());
    assert_eq!(len, "PONG.\n".len() as u64);
    assert_eq!(&framed[9..], "PONG.\n".as_bytes());

    let (bad, _) = run(&mut st, "NONSENSE");
    assert!(is_error(&bad));
    let framed = frame_response(&bad);
    assert_eq!(framed[0], 0x00);
    let len = u64::from_be_bytes(framed[1..9].try_into().unwrap());
    assert_eq!(&framed[9..], "ERR: Unsupported command.\n".as_bytes());
    assert_eq!(len as usize, framed.len() - 9);
}

#[test]
fn get_count_bounds() {
    let mut st = fresh();
    // empty store: both variants fail
    let (r, _) = run(&mut st, "GET 5");
    assert!(is_error(&r));
    let (r, _) = run(&mut st, "GET 5 AS JSON");
    assert!(is_error(&r));
    run(&mut st, "ADD 1000.000, 1, t, t, 1.0, 2.0;");
    // size == 1: GET 1 is allowed in binary, refused as JSON
    let (r, _) = run(&mut st, "GET 1");
    assert!(matches!(r, Response::Binary(_)));
    let (r, _) = run(&mut st, "GET 1 AS JSON");
    assert!(is_error(&r));
    // GET 0 AS JSON renders an array of zero elements
    let (r, _) = run(&mut st, "GET 0 AS JSON");
    assert_eq!(text_of(&r), "[]\n");
    // counts above the size fail in both variants
    let (r, _) = run(&mut st, "GET 5");
    assert!(is_error(&r));
    let (r, _) = run(&mut st, "GET 5 AS JSON");
    assert!(is_error(&r));
}

#[test]
fn add_negative_price_is_an_error() {
    let mut st = fresh();
    let (r, _) = run(&mut st, "ADD 1.0, 1, t, t, -1.0, 2.0;");
    assert!(is_error(&r));
    let (info, _) = run(&mut st, "INFO");
    assert!(text_of(&info).contains("\"count\": 0"));
}

#[test]
fn flush_writes_a_file_image_with_the_buffered_count() {
    let mut st = fresh();
    run(&mut st, "CREATE foo");
    run(&mut st, "USE foo");
    let k = 4u64;
    for i in 0..k {
        let line = format!("ADD 100{}.000, {}, t, t, 1.0, 2.0; INTO foo", i, i + 1);
        let (r, w) = run(&mut st, &line);
        assert_eq!(text_of(&r), "1\n");
        assert!(w.is_empty());
    }
    let (r, writes) = run(&mut st, "FLUSH");
    assert_eq!(text_of(&r), "1\n");
    assert_eq!(writes.len(), 1);
    assert_eq!(writes[0].path, "/tmp/foo.dtf");
    assert_eq!(file_count(&writes[0].bytes), k);
}

#[test]
fn clear_refreshes_size_from_the_file_image() {
    let mut st = fresh();
    run(&mut st, "CREATE foo");
    run(&mut st, "USE foo");
    for i in 0..3 {
        run(&mut st, &format!("ADD 100{}.000, {}, t, t, 1.0, 2.0;", i, i + 1));
    }
    let (_, writes) = run(&mut st, "FLUSH");
    let image = writes.into_iter().next().unwrap().bytes;

    // CLEAR against the written image: the buffer empties, the store drops
    // out of memory, and the size is the on-disk count.
    let snap = DiskSnapshot {
        entries: vec![DiskEntry { name: "foo".to_string(), bytes: Some(image.clone()) }],
    };
    let (r, _) = gen_response("CLEAR", &mut st, &snap);
    assert_eq!(text_of(&r), "1\n");
    let (info, _) = run(&mut st, "INFO");
    assert!(text_of(&info).contains("{\"name\": \"foo\", \"in_memory\": false, \"count\": 3}"));

    // Loading the image back restores all three updates.
    let snap = DiskSnapshot {
        entries: vec![DiskEntry { name: "foo".to_string(), bytes: Some(image) }],
    };
    let (r, _) = gen_response("USE foo", &mut st, &snap);
    assert_eq!(text_of(&r), "SWITCHED TO DB `foo`.\n");
    let (r, _) = run(&mut st, "GET ALL AS JSON");
    let body = text_of(&r);
    assert_eq!(body.matches("{\"ts\":").count(), 3);
    assert!(body.contains("\"price\":1.0"));
}

#[test]
fn flush_appends_only_strictly_newer_updates() {
    let mut st = fresh();
    run(&mut st, "CREATE foo");
    run(&mut st, "USE foo");
    run(&mut st, "ADD 1000.000, 1, t, t, 1.0, 2.0;");
    run(&mut st, "ADD 2000.000, 2, t, t, 1.0, 2.0;");
    let (_, writes) = run(&mut st, "FLUSH");
    let image = writes.into_iter().next().unwrap().bytes;
    assert_eq!(file_count(&image), 2);

    // A second flush against the image it wrote: the two old timestamps
    // are filtered, one newer update is appended.
    run(&mut st, "ADD 3000.000, 3, t, t, 1.0, 2.0;");
    let snap = DiskSnapshot {
        entries: vec![DiskEntry { name: "foo".to_string(), bytes: Some(image) }],
    };
    let (r, writes) = gen_response("FLUSH", &mut st, &snap);
    assert_eq!(text_of(&r), "1\n");
    assert_eq!(file_count(&writes[0].bytes), 3);
}

#[test]
fn bootstrap_registers_stores_from_files() {
    let mut st = fresh();
    run(&mut st, "ADD 1000.000, 1, t, t, 1.0, 2.0;");
    let (_, writes) = run(&mut st, "FLUSH");
    let image = writes.into_iter().next().unwrap().bytes;

    let mut st2 = init_state(&settings(false, 1000), true);
    init_dbs(
        &mut st2,
        &vec![DiskEntry { name: "default".to_string(), bytes: Some(image) }],
    );
    let (info, _) = run(&mut st2, "INFO");
    assert!(text_of(&info).contains("{\"name\": \"default\", \"in_memory\": false, \"count\": 1}"));
}

#[test]
fn autoflush_writes_on_the_interval() {
    let mut st = init_state(&settings(true, 2), false);
    let (r, w) = run(&mut st, "ADD 1000.000, 1, t, t, 1.0, 2.0;");
    assert_eq!(text_of(&r), "1\n");
    assert!(w.is_empty());
    let (r, w) = run(&mut st, "ADD 2000.000, 2, t, t, 1.0, 2.0;");
    assert_eq!(text_of(&r), "1\n");
    assert_eq!(w.len(), 1);
    assert_eq!(w[0].path, "/tmp/default.dtf");
    assert_eq!(file_count(&w[0].bytes), 2);
}

#[test]
fn clear_all_and_flush_all_touch_every_store() {
    let mut st = fresh();
    run(&mut st, "CREATE a");
    run(&mut st, "CREATE b");
    run(&mut st, "ADD 1000.000, 1, t, t, 1.0, 2.0; INTO a");
    run(&mut st, "ADD 1000.000, 1, t, t, 1.0, 2.0; INTO b");
    let (r, writes) = run(&mut st, "FLUSH ALL");
    assert_eq!(text_of(&r), "1\n");
    assert_eq!(writes.len(), 3);
    let (r, _) = run(&mut st, "CLEAR ALL");
    assert_eq!(text_of(&r), "1\n");
    let (info, _) = run(&mut st, "INFO");
    assert!(text_of(&info).contains("{\"name\": \"a\", \"in_memory\": false, \"count\": 0}"));
}

#[test]
fn help_and_empty_commands() {
    let mut st = fresh();
    let (r, _) = run(&mut st, "");
    assert_eq!(text_of(&r), "");
    let (r, _) = run(&mut st, "HELP");
    assert!(text_of(&r).contains("BULKADD"));
}

#[test]
fn add_into_missing_store_is_an_error() {
    let mut st = fresh();
    let (r, _) = run(&mut st, "ADD 1000.000, 1, t, t, 1.0, 2.0; INTO nosuch");
    assert!(is_error(&r));
}
