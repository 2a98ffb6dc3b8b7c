//! The command dispatcher: one textual command against one connection
//! state yields a response, a new state, and the file writes to perform.
//!
//! The dispatcher never touches the file system itself: the caller hands
//! it a [`DiskSnapshot`] of the file images the command may consult (see
//! [`disk_demand`]) and performs the returned [`FileWrite`]s afterwards.
use vstd::prelude::*;
use vstd::string::StringExecFns;
use crate::cmdstr::{
    find_first, spec_find, spec_prefix, spec_suffix, str_eq_str, str_prefix, str_suffix,
    substr_string,
};
use crate::codec::{enc_batch, spec_file, spec_flush};
use crate::disk::{
    snap_file, spec_path, writes_of, DiskEntryModel, DiskSnapshot, FileWrite, FileWriteModel,
    file_path,
};
use crate::parser::{parse_line, spec_parse_line};
use crate::render::{info_json, render_info, render_updates_json, updates_json};
use crate::state::{
    autoflush_fires, find_idx, has_store, lemma_find_idx_at, lemma_find_idx_found,
    lemma_find_idx_none_names, lemma_find_idx_same_names, lemma_wf_after_update,
    spec_autoflushed, FlushOutcome, State, StateModel,
};
use crate::store::{spec_load, spec_opt_count, Store, StoreModel};
use crate::text::{all_digits, dec_str, digits_val, str_chars, u64_to_string};
use crate::update::{Update, UpdateModel};

verus! {

/// What kind of command a line is, given whether the connection is in
/// bulk-add mode.
pub ghost enum CmdKind {
    Empty,
    Ping,
    Help,
    Info,
    BulkAdd,
    BulkEnd,
    GetAllJson,
    GetAll,
    Clear,
    ClearAll,
    Flush,
    FlushAll,
    BulkLine,
    AddInto,
    Add,
    Create,
    Use,
    Get,
    Unknown,
}

/// The position of the first ` INTO ` separator.
pub open spec fn into_pos(s: Seq<char>) -> int {
    spec_find(s, " INTO "@, 0)
}

/// The fixed commands are matched first; in bulk-add mode any other line
/// is an update; otherwise the prefixed commands are tried.
pub open spec fn classify(s: Seq<char>, is_adding: bool) -> CmdKind {
    if s.len() == 0 {
        CmdKind::Empty
    } else if s == "PING"@ {
        CmdKind::Ping
    } else if s == "HELP"@ {
        CmdKind::Help
    } else if s == "INFO"@ {
        CmdKind::Info
    } else if s == "BULKADD"@ {
        CmdKind::BulkAdd
    } else if s == "DDAKLUB"@ {
        CmdKind::BulkEnd
    } else if s == "GET ALL AS JSON"@ {
        CmdKind::GetAllJson
    } else if s == "GET ALL"@ {
        CmdKind::GetAll
    } else if s == "CLEAR"@ {
        CmdKind::Clear
    } else if s == "CLEAR ALL"@ {
        CmdKind::ClearAll
    } else if s == "FLUSH"@ {
        CmdKind::Flush
    } else if s == "FLUSH ALL"@ {
        CmdKind::FlushAll
    } else if is_adding {
        CmdKind::BulkLine
    } else if spec_prefix(s, "ADD "@) {
        if into_pos(s) >= 4 {
            CmdKind::AddInto
        } else {
            CmdKind::Add
        }
    } else if spec_prefix(s, "CREATE "@) {
        CmdKind::Create
    } else if spec_prefix(s, "USE "@) {
        CmdKind::Use
    } else if spec_prefix(s, "GET "@) {
        CmdKind::Get
    } else {
        CmdKind::Unknown
    }
}

pub open spec fn add_plain_data(s: Seq<char>) -> Seq<char> {
    s.subrange(4, s.len() as int)
}

pub open spec fn add_into_data(s: Seq<char>) -> Seq<char> {
    s.subrange(4, into_pos(s))
}

pub open spec fn add_into_name(s: Seq<char>) -> Seq<char> {
    s.subrange(into_pos(s) + 6, s.len() as int)
}

pub open spec fn create_name(s: Seq<char>) -> Seq<char> {
    s.subrange(7, s.len() as int)
}

pub open spec fn use_name(s: Seq<char>) -> Seq<char> {
    s.subrange(4, s.len() as int)
}

pub open spec fn get_is_json(s: Seq<char>) -> bool {
    spec_suffix(s.subrange(4, s.len() as int), " AS JSON"@)
}

pub open spec fn get_count_text(s: Seq<char>) -> Seq<char> {
    let rest = s.subrange(4, s.len() as int);
    if get_is_json(s) {
        rest.take(rest.len() - 8)
    } else {
        rest
    }
}

pub open spec fn get_count_ok(s: Seq<char>) -> bool {
    let t = get_count_text(s);
    t.len() > 0 && all_digits(t) && digits_val(t) <= u64::MAX
}

pub open spec fn get_count(s: Seq<char>) -> u64 {
    digits_val(get_count_text(s)) as u64
}

/// The `HELP` text.
pub open spec fn spec_help() -> Seq<char> {
    "PING, INFO, USE [db], CREATE [db],\nADD [ts],[seq],[is_trade],[is_bid],[price],[size];\nBULKADD ...; DDAKLUB\nFLUSH, FLUSH ALL, GET ALL, GET [count], CLEAR\n"@
}

/// A response: exactly one of a text, a binary payload, or an error
/// message.
pub enum Response {
    Text(String),
    Binary(Vec<u8>),
    Error(String),
}

/// The model of a [`Response`].
pub ghost enum RespModel {
    Text(Seq<char>),
    Binary(Seq<u8>),
    Error(Seq<char>),
}

impl View for Response {
    type V = RespModel;

    open spec fn view(&self) -> RespModel {
        match self {
            Response::Text(s) => RespModel::Text(s@),
            Response::Binary(b) => RespModel::Binary(b@),
            Response::Error(s) => RespModel::Error(s@),
        }
    }
}

/// A store as `CREATE` makes it.
pub open spec fn fresh_store(name: Seq<char>, folder: Seq<char>) -> StoreModel {
    StoreModel { name, folder, in_memory: false, size: 0, v: Seq::empty() }
}

/// The roster after `CREATE`: a store of that name replaced or appended.
pub open spec fn spec_create(
    stores: Seq<StoreModel>,
    name: Seq<char>,
    folder: Seq<char>,
) -> Seq<StoreModel> {
    if has_store(stores, name) {
        stores.update(find_idx(stores, name), fresh_store(name, folder))
    } else {
        stores.push(fresh_store(name, folder))
    }
}

/// A store after `CLEAR` against a file image.
pub open spec fn cleared(sm: StoreModel, f: Option<Seq<u8>>) -> StoreModel {
    StoreModel { v: Seq::empty(), in_memory: false, size: spec_opt_count(f), ..sm }
}

pub open spec fn cleared_all(stores: Seq<StoreModel>, disk: Seq<DiskEntryModel>) -> Seq<
    StoreModel,
> {
    Seq::new(stores.len(), |i: int| cleared(stores[i], snap_file(disk, stores[i].name)))
}

/// Whether every store's flush can read its existing image.
pub open spec fn all_flush_ok(stores: Seq<StoreModel>, disk: Seq<DiskEntryModel>) -> bool {
    forall|i: int|
        0 <= i < stores.len() ==> spec_flush(
            snap_file(disk, (#[trigger] stores[i]).name),
            stores[i].v,
        ) is Some
}

pub open spec fn flush_all_writes(stores: Seq<StoreModel>, disk: Seq<DiskEntryModel>) -> Seq<
    FileWriteModel,
> {
    Seq::new(
        stores.len(),
        |i: int|
            FileWriteModel {
                path: spec_path(stores[i].folder, stores[i].name),
                bytes: spec_flush(snap_file(disk, stores[i].name), stores[i].v)->0,
            },
    )
}

/// Whether an update fits the named store.
pub open spec fn can_insert(st: StateModel, name: Seq<char>) -> bool {
    has_store(st.stores, name) && st.stores[find_idx(st.stores, name)].size < u64::MAX
}

/// The state after one update enters the named store.
pub open spec fn spec_inserted(st: StateModel, m: UpdateModel, name: Seq<char>) -> StateModel {
    let i = find_idx(st.stores, name);
    StateModel {
        stores: st.stores.update(
            i,
            StoreModel {
                size: (st.stores[i].size + 1) as u64,
                v: st.stores[i].v.push(m),
                ..st.stores[i]
            },
        ),
        ..st
    }
}

/// The aftermath of the automatic flush that follows a single insert.
pub ghost struct AfRes {
    pub st: StateModel,
    pub write: Option<Seq<u8>>,
    pub failed: bool,
}

pub open spec fn spec_after_autoflush(st1: StateModel, f: Option<Seq<u8>>) -> AfRes {
    if !autoflush_fires(st1) {
        AfRes { st: st1, write: None, failed: false }
    } else {
        match spec_flush(f, st1.stores[find_idx(st1.stores, st1.current)].v) {
            None => AfRes { st: st1, write: None, failed: true },
            Some(img) => AfRes { st: spec_autoflushed(st1, f), write: Some(img), failed: false },
        }
    }
}

/// What one single-update insert (from `ADD`, `ADD INTO`, or a bulk-add
/// line) does: the update enters the target store, then the automatic
/// flush of the current store may fire.
pub open spec fn add_outcome(
    old: StateModel,
    disk: Seq<DiskEntryModel>,
    m: UpdateModel,
    target: Seq<char>,
    ok_text: Seq<char>,
    new: StateModel,
    resp: RespModel,
    ws: Seq<FileWriteModel>,
) -> bool {
    if !can_insert(old, target) {
        new == old && resp == RespModel::Error("Unable to add: the store is full."@) && ws.len()
            == 0
    } else {
        let st1 = spec_inserted(old, m, target);
        let af = spec_after_autoflush(st1, snap_file(disk, old.current));
        new == af.st && (if af.failed {
            resp == RespModel::Error("Unable to flush."@) && ws.len() == 0
        } else {
            resp == RespModel::Text(ok_text) && (match af.write {
                None => ws.len() == 0,
                Some(img) => ws == seq![
                    FileWriteModel {
                        path: spec_path(
                            st1.stores[find_idx(st1.stores, st1.current)].folder,
                            st1.stores[find_idx(st1.stores, st1.current)].name,
                        ),
                        bytes: img,
                    },
                ],
            })
        })
    }
}

/// The whole behaviour of the dispatcher, case by case.
pub open spec fn spec_response(
    s: Seq<char>,
    old: StateModel,
    disk: Seq<DiskEntryModel>,
    new: StateModel,
    resp: RespModel,
    ws: Seq<FileWriteModel>,
) -> bool {
    match classify(s, old.is_adding) {
        CmdKind::Empty => new == old && resp == RespModel::Text(Seq::empty()) && ws.len() == 0,
        CmdKind::Ping => new == old && resp == RespModel::Text("PONG.\n"@) && ws.len() == 0,
        CmdKind::Help => new == old && resp == RespModel::Text(spec_help()) && ws.len() == 0,
        CmdKind::Info => new == old && resp == RespModel::Text(info_json(old.stores)) && ws.len()
            == 0,
        CmdKind::BulkAdd => new == (StateModel { is_adding: true, ..old }) && resp
            == RespModel::Text(Seq::empty()) && ws.len() == 0,
        CmdKind::BulkEnd => new == (StateModel { is_adding: false, ..old }) && resp
            == RespModel::Text("1\n"@) && ws.len() == 0,
        CmdKind::GetAllJson => new == old && resp == RespModel::Text(
            "["@ + updates_json(old.cur().v) + "]\n"@,
        ) && ws.len() == 0,
        CmdKind::GetAll => new == old && ws.len() == 0 && (if old.cur().size > 0 {
            resp == RespModel::Binary(enc_batch(old.cur().v))
        } else {
            resp == RespModel::Error("Failed to GET ALL."@)
        }),
        CmdKind::Clear => new == (StateModel {
            stores: old.stores.update(
                old.cur_idx(),
                cleared(old.cur(), snap_file(disk, old.current)),
            ),
            ..old
        }) && resp == RespModel::Text("1\n"@) && ws.len() == 0,
        CmdKind::ClearAll => new == (StateModel { stores: cleared_all(old.stores, disk), ..old })
            && resp == RespModel::Text("1\n"@) && ws.len() == 0,
        CmdKind::Flush => new == old && (match spec_flush(
            snap_file(disk, old.current),
            old.cur().v,
        ) {
            Some(img) => resp == RespModel::Text("1\n"@) && ws == seq![
                FileWriteModel { path: spec_path(old.cur().folder, old.cur().name), bytes: img },
            ],
            None => resp == RespModel::Error("Unable to flush."@) && ws.len() == 0,
        }),
        CmdKind::FlushAll => new == old && (if all_flush_ok(old.stores, disk) {
            resp == RespModel::Text("1\n"@) && ws == flush_all_writes(old.stores, disk)
        } else {
            resp == RespModel::Error("Unable to flush."@) && ws.len() == 0
        }),
        CmdKind::BulkLine => match spec_parse_line(s) {
            None => new == old && resp == RespModel::Error("Unable to parse line in BULKALL"@)
                && ws.len() == 0,
            Some(m) => add_outcome(old, disk, m, old.current, Seq::empty(), new, resp, ws),
        },
        CmdKind::AddInto => {
            let name = add_into_name(s);
            if !has_store(old.stores, name) {
                new == old && resp == RespModel::Error("State does not contain "@ + name)
                    && ws.len() == 0
            } else {
                match spec_parse_line(add_into_data(s)) {
                    None => new == old && resp == RespModel::Error("Parse ADD INTO"@) && ws.len()
                        == 0,
                    Some(m) => add_outcome(old, disk, m, name, "1\n"@, new, resp, ws),
                }
            }
        },
        CmdKind::Add => match spec_parse_line(add_plain_data(s)) {
            None => new == old && resp == RespModel::Error("Parse ADD"@) && ws.len() == 0,
            Some(m) => add_outcome(old, disk, m, old.current, "1\n"@, new, resp, ws),
        },
        CmdKind::Create => new == (StateModel {
            stores: spec_create(old.stores, create_name(s), old.settings.dtf_folder),
            ..old
        }) && resp == RespModel::Text("Created DB `"@ + create_name(s) + "`.\n"@) && ws.len() == 0,
        CmdKind::Use => {
            let name = use_name(s);
            if !has_store(old.stores, name) {
                new == old && resp == RespModel::Error("State does not contain "@ + name)
                    && ws.len() == 0
            } else {
                let i = find_idx(old.stores, name);
                match spec_load(old.stores[i], snap_file(disk, name)) {
                    None => new == (StateModel { current: name, ..old }) && resp
                        == RespModel::Error("Unable to load "@ + name) && ws.len() == 0,
                    Some(sm) => new == (StateModel {
                        stores: old.stores.update(i, sm),
                        current: name,
                        ..old
                    }) && resp == RespModel::Text("SWITCHED TO DB `"@ + name + "`.\n"@) && ws.len()
                        == 0,
                }
            }
        },
        CmdKind::Get => new == old && ws.len() == 0 && get_case(s, old, resp),
        CmdKind::Unknown => new == old && resp == RespModel::Error("Unsupported command."@)
            && ws.len() == 0,
    }
}

/// The store names whose file images a command may consult.
pub open spec fn spec_demand(s: Seq<char>, st: StateModel) -> Seq<Seq<char>> {
    match classify(s, st.is_adding) {
        CmdKind::BulkLine | CmdKind::Add | CmdKind::AddInto | CmdKind::Clear | CmdKind::Flush =>
            seq![st.current],
        CmdKind::Use => seq![use_name(s)],
        CmdKind::ClearAll | CmdKind::FlushAll => Seq::new(
            st.stores.len(),
            |i: int| st.stores[i].name,
        ),
        _ => Seq::empty(),
    }
}

/// What `GET` answers: the JSON variant refuses a count that reaches the
/// store's size; the binary variant refuses only a count above it; both
/// refuse an empty store and a count beyond the buffer.
pub open spec fn get_case(s: Seq<char>, old: StateModel, resp: RespModel) -> bool {
    if !get_count_ok(s) {
        resp == RespModel::Error("Unsupported command."@)
    } else {
        let n = get_count(s);
        let cur = old.cur();
        if get_is_json(s) {
            if cur.size <= n || cur.size == 0 || n > cur.v.len() {
                resp == RespModel::Error("Requested too many"@)
            } else {
                resp == RespModel::Text("["@ + updates_json(cur.v.take(n as int)) + "]\n"@)
            }
        } else {
            if cur.size >= n && cur.size > 0 && n <= cur.v.len() {
                resp == RespModel::Binary(enc_batch(cur.v.take(n as int)))
            } else {
                resp == RespModel::Error("Failed to get "@ + dec_str(n as nat) + "."@)
            }
        }
    }
}

/// Answers a `GET <count>` command.
fn do_get(state: &State, line: &str) -> (resp: Response)
    requires
        state.wf(),
        spec_prefix(line@, "GET "@),
    ensures
        get_case(line@, state@, resp@),
{
    proof {
        reveal_strlit("GET ");
        reveal_strlit(" AS JSON");
    }
    let n = line.unicode_len();
    let rest = substr_string(line, 4, n);
    let json = str_suffix(rest.as_str(), " AS JSON");
    let rl = rest.as_str().unicode_len();
    let count_text = if json {
        substr_string(rest.as_str(), 0, rl - 8)
    } else {
        substr_string(rest.as_str(), 0, rl)
    };
    proof {
        assert(count_text@ =~= get_count_text(line@));
    }
    let cchars = str_chars(count_text.as_str());
    let cnt = match crate::text::parse_u64_digits(&cchars) {
        Some(c) => c,
        None => {
            return err_lit("Unsupported command.");
        },
    };
    let i = cur_index(state);
    if json {
        let cur = &state.stores[i];
        proof {
            assert(state@.cur() == cur@);
        }
        if cur.size <= cnt || cur.size == 0 || (cur.v.len() as u64) < cnt {
            return err_lit("Requested too many");
        }
        let body = render_updates_json(&cur.v, cnt as usize);
        let mut out = String::from_str("[");
        out.append(body.as_str());
        out.append("]\n");
        proof {
            assert(crate::update::views_of(cur.v@).take(cnt as int) =~= state@.cur().v.take(
                cnt as int,
            ));
            assert(out@ =~= "["@ + updates_json(state@.cur().v.take(cnt as int)) + "]\n"@);
        }
        return Response::Text(out);
    }
    match state.get(Some(cnt)) {
        Some(bytes) => Response::Binary(bytes),
        None => {
            let digits = u64_to_string(cnt);
            let mut msg = String::from_str("Failed to get ");
            msg.append(digits.as_str());
            msg.append(".");
            proof {
                assert(msg@ =~= "Failed to get "@ + dec_str(cnt as nat) + "."@);
            }
            Response::Error(msg)
        },
    }
}

/// The index of the current store.
fn cur_index(state: &State) -> (i: usize)
    requires
        state.wf(),
    ensures
        i as int == state@.cur_idx(),
        (i as int) < state@.stores.len(),
{
    proof {
        lemma_find_idx_found(state@.stores, state@.current);
    }
    match state.find_store(&state.current) {
        Some(i) => i,
        None => {
            proof {
                assert(false);
            }
            0
        },
    }
}

fn text_lit(s: &str) -> (r: Response)
    ensures
        r@ == RespModel::Text(s@),
{
    Response::Text(s.to_owned())
}

fn err_lit(s: &str) -> (r: Response)
    ensures
        r@ == RespModel::Error(s@),
{
    Response::Error(s.to_owned())
}

/// An error message of the shape `{prefix}{name}`.
fn err_with_name(prefix: &str, name: &String) -> (r: Response)
    ensures
        r@ == RespModel::Error(prefix@ + name@),
{
    let mut m = prefix.to_owned();
    m.append(name.as_str());
    Response::Error(m)
}

/// Performs one single-update insert with its automatic flush.
fn do_add(
    state: &mut State,
    u: Update,
    target: &String,
    disk: &DiskSnapshot,
    ok_resp: Response,
) -> (r: (Response, Vec<FileWrite>))
    requires
        old(state).wf(),
        u.wf(),
        has_store(old(state)@.stores, target@),
        ok_resp@ is Text,
    ensures
        final(state).wf(),
        add_outcome(
            old(state)@,
            disk@,
            u@,
            target@,
            match ok_resp@ {
                RespModel::Text(t) => t,
                _ => Seq::empty(),
            },
            final(state)@,
            r.0@,
            writes_of(r.1@),
        ),
{
    let file = disk.lookup(&state.current);
    let ok = state.insert(u, target);
    if !ok {
        proof {
            assert(writes_of(Seq::<FileWrite>::empty()) =~= Seq::<FileWriteModel>::empty());
        }
        return (err_lit("Unable to add: the store is full."), Vec::new());
    }
    let ghost st1 = state@;
    match state.autoflush(&file) {
        FlushOutcome::Skipped => {
            proof {
                assert(writes_of(Seq::<FileWrite>::empty()) =~= Seq::<FileWriteModel>::empty());
            }
            (ok_resp, Vec::new())
        },
        FlushOutcome::Failed => {
            proof {
                assert(writes_of(Seq::<FileWrite>::empty()) =~= Seq::<FileWriteModel>::empty());
            }
            (err_lit("Unable to flush."), Vec::new())
        },
        FlushOutcome::Flushed(img) => {
            proof {
                lemma_find_idx_found(st1.stores, st1.current);
                let ci = find_idx(st1.stores, st1.current);
                assert(state@.stores == st1.stores.update(
                    ci,
                    StoreModel {
                        size: crate::codec::spec_file_count(
                            spec_flush(spec_file(&file), st1.stores[ci].v)->0,
                        ),
                        ..st1.stores[ci]
                    },
                ));
                assert forall|k: int| 0 <= k < st1.stores.len() implies (
                #[trigger] st1.stores[k]).name == state@.stores[k].name by {
                    if k != ci {
                        assert(state@.stores[k] == st1.stores[k]);
                    }
                }
                lemma_find_idx_same_names(st1.stores, state@.stores, st1.current);
            }
            let i = cur_index(state);
            let path = file_path(&state.stores[i].folder, &state.stores[i].name);
            let mut ws: Vec<FileWrite> = Vec::new();
            ws.push(FileWrite { path, bytes: img });
            proof {
                assert(state@.stores[i as int].folder == st1.stores[find_idx(
                    st1.stores,
                    st1.current,
                )].folder);
                assert(state@.stores[i as int].name == st1.stores[find_idx(
                    st1.stores,
                    st1.current,
                )].name);
                assert(writes_of(ws@) =~= seq![ws@[0]@]);
            }
            (ok_resp, ws)
        },
    }
}

/// Dispatches one command. The returned response is exactly one of a
/// text, a binary payload, or an error; the returned writes must be
/// performed on the store files for the state to stay faithful to disk.
#[verifier::rlimit(100)]
pub fn gen_response(line: &str, state: &mut State, disk: &DiskSnapshot) -> (r: (
    Response,
    Vec<FileWrite>,
))
    requires
        old(state).wf(),
    ensures
        final(state).wf(),
        spec_response(line@, old(state)@, disk@, final(state)@, r.0@, writes_of(r.1@)),
{
    proof {
        reveal_strlit("ADD ");
        reveal_strlit("CREATE ");
        reveal_strlit("USE ");
        reveal_strlit("GET ");
        reveal_strlit(" INTO ");
        assert(writes_of(Seq::<FileWrite>::empty()) =~= Seq::<FileWriteModel>::empty());
        lemma_find_idx_found(state@.stores, state@.current);
    }
    if line.is_empty() {
        return (Response::Text(String::new()), Vec::new());
    }
    if str_eq_str(line, "PING") {
        return (text_lit("PONG.\n"), Vec::new());
    }
    if str_eq_str(line, "HELP") {
        return (
            text_lit(
                "PING, INFO, USE [db], CREATE [db],\nADD [ts],[seq],[is_trade],[is_bid],[price],[size];\nBULKADD ...; DDAKLUB\nFLUSH, FLUSH ALL, GET ALL, GET [count], CLEAR\n",
            ),
            Vec::new(),
        );
    }
    if str_eq_str(line, "INFO") {
        return (Response::Text(render_info(&state.stores)), Vec::new());
    }
    if str_eq_str(line, "BULKADD") {
        state.is_adding = true;
        return (Response::Text(String::new()), Vec::new());
    }
    if str_eq_str(line, "DDAKLUB") {
        state.is_adding = false;
        return (text_lit("1\n"), Vec::new());
    }
    if str_eq_str(line, "GET ALL AS JSON") {
        let i = cur_index(state);
        let cur = &state.stores[i];
        proof {
            assert(state@.cur() == cur@);
        }
        let body = render_updates_json(&cur.v, cur.v.len());
        let mut out = String::from_str("[");
        out.append(body.as_str());
        out.append("]\n");
        proof {
            assert(crate::update::views_of(cur.v@).take(cur.v@.len() as int) =~= state@.cur().v);
            assert(out@ =~= "["@ + updates_json(state@.cur().v) + "]\n"@);
        }
        return (Response::Text(out), Vec::new());
    }
    if str_eq_str(line, "GET ALL") {
        match state.get(None) {
            Some(bytes) => {
                return (Response::Binary(bytes), Vec::new());
            },
            None => {
                return (err_lit("Failed to GET ALL."), Vec::new());
            },
        }
    }
    if str_eq_str(line, "CLEAR") {
        let i = cur_index(state);
        let file = disk.lookup(&state.current);
        let mut st = state.stores.remove(i);
        st.clear(&file);
        state.stores.insert(i, st);
        proof {
            assert(state.stores@.map_values(|s: Store| s@) =~= old(state)@.stores.update(
                i as int,
                state.stores@[i as int]@,
            ));
            lemma_wf_after_update(old(state)@, state@, i as int);
        }
        return (text_lit("1\n"), Vec::new());
    }
    if str_eq_str(line, "CLEAR ALL") {
        clear_all(state, disk);
        return (text_lit("1\n"), Vec::new());
    }
    if str_eq_str(line, "FLUSH") {
        let i = cur_index(state);
        let file = disk.lookup(&state.current);
        match state.stores[i].flush(&file) {
            Some(img) => {
                let path = file_path(&state.stores[i].folder, &state.stores[i].name);
                let mut ws: Vec<FileWrite> = Vec::new();
                ws.push(FileWrite { path, bytes: img });
                proof {
                    assert(writes_of(ws@) =~= seq![ws@[0]@]);
                }
                return (text_lit("1\n"), ws);
            },
            None => {
                return (err_lit("Unable to flush."), Vec::new());
            },
        }
    }
    if str_eq_str(line, "FLUSH ALL") {
        match flush_all(state, disk) {
            Some(ws) => {
                return (text_lit("1\n"), ws);
            },
            None => {
                return (err_lit("Unable to flush."), Vec::new());
            },
        }
    }
    if state.is_adding {
        match parse_line(line) {
            None => {
                return (err_lit("Unable to parse line in BULKALL"), Vec::new());
            },
            Some(u) => {
                let target = state.current.clone();
                return do_add(state, u, &target, disk, Response::Text(String::new()));
            },
        }
    }
    if str_prefix(line, "ADD ") {
        let n = line.unicode_len();
        match find_first(line, " INTO ") {
            Some(pos) if pos >= 4 => {
                let name = substr_string(line, pos + 6, n);
                let data = substr_string(line, 4, pos);
                if state.find_store(&name).is_none() {
                    return (err_with_name("State does not contain ", &name), Vec::new());
                }
                match parse_line(data.as_str()) {
                    None => {
                        return (err_lit("Parse ADD INTO"), Vec::new());
                    },
                    Some(u) => {
                        return do_add(state, u, &name, disk, text_lit("1\n"));
                    },
                }
            },
            _ => {
                let data = substr_string(line, 4, n);
                match parse_line(data.as_str()) {
                    None => {
                        return (err_lit("Parse ADD"), Vec::new());
                    },
                    Some(u) => {
                        let target = state.current.clone();
                        return do_add(state, u, &target, disk, text_lit("1\n"));
                    },
                }
            },
        }
    }
    if str_prefix(line, "CREATE ") {
        let n = line.unicode_len();
        let name = substr_string(line, 7, n);
        do_create(state, &name);
        let mut msg = String::from_str("Created DB `");
        msg.append(name.as_str());
        msg.append("`.\n");
        proof {
            assert(msg@ =~= "Created DB `"@ + create_name(line@) + "`.\n"@);
        }
        return (Response::Text(msg), Vec::new());
    }
    if str_prefix(line, "USE ") {
        let n = line.unicode_len();
        let name = substr_string(line, 4, n);
        let i = match state.find_store(&name) {
            Some(i) => i,
            None => {
                return (err_with_name("State does not contain ", &name), Vec::new());
            },
        };
        state.current = name.clone();
        proof {
            lemma_find_idx_found(old(state)@.stores, name@);
        }
        let file = disk.lookup(&state.current);
        let mut st = state.stores.remove(i);
        let ok = st.load(&file);
        state.stores.insert(i, st);
        proof {
            assert(state.stores@.map_values(|s: Store| s@) =~= old(state)@.stores.update(
                i as int,
                state.stores@[i as int]@,
            ));
            if ok {
                lemma_wf_after_update(
                    StateModel { current: name@, ..old(state)@ },
                    state@,
                    i as int,
                );
            } else {
                assert(state@.stores =~= old(state)@.stores);
                lemma_wf_after_update(
                    StateModel { current: name@, ..old(state)@ },
                    state@,
                    i as int,
                );
            }
        }
        if !ok {
            return (err_with_name("Unable to load ", &name), Vec::new());
        }
        let mut msg = String::from_str("SWITCHED TO DB `");
        msg.append(name.as_str());
        msg.append("`.\n");
        proof {
            assert(msg@ =~= "SWITCHED TO DB `"@ + use_name(line@) + "`.\n"@);
        }
        return (Response::Text(msg), Vec::new());
    }
    if str_prefix(line, "GET ") {
        return (do_get(state, line), Vec::new());
    }
    (err_lit("Unsupported command."), Vec::new())
}

/// Replaces or appends the named store, fresh and empty.
fn do_create(state: &mut State, name: &String)
    requires
        old(state).wf(),
    ensures
        final(state).wf(),
        final(state)@ == (StateModel {
            stores: spec_create(
                old(state)@.stores,
                name@,
                old(state)@.settings.dtf_folder,
            ),
            ..old(state)@
        }),
{
    let fresh = Store::new_store(name.clone(), state.settings.dtf_folder.clone());
    match state.find_store(name) {
        Some(i) => {
            proof {
                lemma_find_idx_found(state@.stores, name@);
            }
            let _old_store = state.stores.remove(i);
            state.stores.insert(i, fresh);
            proof {
                assert(state.stores@.map_values(|s: Store| s@) =~= old(state)@.stores.update(
                    i as int,
                    state.stores@[i as int]@,
                ));
                lemma_wf_after_update(old(state)@, state@, i as int);
            }
        },
        None => {
            let ghost olds = state@.stores;
            proof {
                lemma_find_idx_found(olds, name@);
                lemma_find_idx_none_names(olds, name@);
            }
            state.stores.push(fresh);
            proof {
                assert(state.stores@.map_values(|s: Store| s@) =~= olds.push(
                    fresh_store(name@, old(state)@.settings.dtf_folder),
                ));
                lemma_find_idx_found(olds, old(state)@.current);
                let ci = find_idx(olds, old(state)@.current);
                assert forall|k: int| 0 <= k < ci implies (#[trigger] state@.stores[k]).name
                    != old(state)@.current by {
                    assert(state@.stores[k] == olds[k]);
                }
                lemma_find_idx_at(state@.stores, old(state)@.current, ci);
                assert forall|a: int, b: int| 0 <= a < b < state@.stores.len() implies (
                #[trigger] state@.stores[a]).name != (#[trigger] state@.stores[b]).name by {
                    if b < olds.len() {
                        assert(state@.stores[a] == olds[a]);
                        assert(state@.stores[b] == olds[b]);
                    } else {
                        assert(state@.stores[a] == olds[a]);
                        assert(state@.stores[b].name == name@);
                    }
                }
                assert(state@.wf());
            }
        },
    }
}

/// Clears every store against its file image.
fn clear_all(state: &mut State, disk: &DiskSnapshot)
    requires
        old(state).wf(),
    ensures
        final(state).wf(),
        final(state)@ == (StateModel {
            stores: cleared_all(old(state)@.stores, disk@),
            ..old(state)@
        }),
{
    let ghost olds = old(state)@.stores;
    let n = state.stores.len();
    let mut i: usize = 0;
    while i < n
        invariant
            i <= n,
            n == state.stores@.len(),
            olds.len() == n,
            state@.current == old(state)@.current,
            state@.settings == old(state)@.settings,
            state@.is_adding == old(state)@.is_adding,
            forall|k: int|
                i <= k < n ==> (#[trigger] state@.stores[k]) == olds[k],
            forall|k: int|
                0 <= k < i ==> (#[trigger] state@.stores[k]) == cleared(
                    olds[k],
                    snap_file(disk@, olds[k].name),
                ),
            forall|k: int| 0 <= k < n ==> (#[trigger] state@.stores[k]).name == olds[k].name,
            forall|k: int| 0 <= k < n ==> (#[trigger] state@.stores[k]).wf(),
        decreases n - i,
    {
        let file = disk.lookup(&state.stores[i].name);
        let ghost before = state@.stores;
        proof {
            assert(before[i as int] == state.stores@[i as int]@);
            assert(before[i as int].wf());
            assert(before[i as int].name == olds[i as int].name);
        }
        let mut st = state.stores.remove(i);
        proof {
            assert(st@ == before[i as int]);
        }
        st.clear(&file);
        state.stores.insert(i, st);
        proof {
            assert(state.stores@.map_values(|s: Store| s@) =~= before.update(
                i as int,
                st@,
            ));
            assert(state@.stores[i as int] == cleared(
                olds[i as int],
                snap_file(disk@, olds[i as int].name),
            ));
            assert forall|k: int| 0 <= k < n && k != i implies #[trigger] state@.stores[k]
                == before[k] by {
            }
        }
        i += 1;
    }
    proof {
        assert(state@.stores =~= cleared_all(olds, disk@));
        lemma_find_idx_same_names(olds, state@.stores, old(state)@.current);
    }
}

/// The flush images of every store, or `None` when any existing image
/// cannot be read.
fn flush_all(state: &State, disk: &DiskSnapshot) -> (r: Option<Vec<FileWrite>>)
    requires
        state.wf(),
    ensures
        r is Some <==> all_flush_ok(state@.stores, disk@),
        r is Some ==> writes_of(r->0@) == flush_all_writes(state@.stores, disk@),
{
    let n = state.stores.len();
    let mut ws: Vec<FileWrite> = Vec::new();
    let mut i: usize = 0;
    while i < n
        invariant
            i <= n,
            n == state.stores@.len(),
            state.wf(),
            forall|k: int|
                0 <= k < i ==> spec_flush(
                    snap_file(disk@, (#[trigger] state@.stores[k]).name),
                    state@.stores[k].v,
                ) is Some,
            writes_of(ws@) =~= flush_all_writes(state@.stores, disk@).take(i as int),
        decreases n - i,
    {
        let file = disk.lookup(&state.stores[i].name);
        proof {
            assert(state@.stores[i as int] == state.stores@[i as int]@);
            assert(state@.stores[i as int].wf());
        }
        match state.stores[i].flush(&file) {
            Some(img) => {
                let path = file_path(&state.stores[i].folder, &state.stores[i].name);
                let ghost prev = ws@;
                ws.push(FileWrite { path, bytes: img });
                proof {
                    assert(writes_of(ws@) =~= writes_of(prev).push(ws@[ws@.len() - 1]@));
                    assert(writes_of(ws@) =~= flush_all_writes(state@.stores, disk@).take(i + 1));
                }
            },
            None => {
                return None;
            },
        }
        i += 1;
    }
    proof {
        assert(flush_all_writes(state@.stores, disk@).take(n as int) =~= flush_all_writes(
            state@.stores,
            disk@,
        ));
    }
    Some(ws)
}

/// The store names whose file images the given command may consult; the
/// embedding program reads these files into the snapshot it hands to
/// [`gen_response`].
pub fn disk_demand(line: &str, state: &State) -> (r: Vec<String>)
    requires
        state.wf(),
    ensures
        r.deep_view() == spec_demand(line@, state@),
{
    proof {
        reveal_strlit("ADD ");
        reveal_strlit("CREATE ");
        reveal_strlit("USE ");
        reveal_strlit("GET ");
        reveal_strlit("PING");
        reveal_strlit("HELP");
        reveal_strlit("INFO");
        reveal_strlit("BULKADD");
        reveal_strlit("DDAKLUB");
        reveal_strlit("GET ALL AS JSON");
        reveal_strlit("GET ALL");
        reveal_strlit("CLEAR");
        reveal_strlit("CLEAR ALL");
        reveal_strlit("FLUSH");
        reveal_strlit("FLUSH ALL");
    }
    let mut out: Vec<String> = Vec::new();
    if line.is_empty() || str_eq_str(line, "PING") || str_eq_str(line, "HELP") || str_eq_str(
        line,
        "INFO",
    ) || str_eq_str(line, "BULKADD") || str_eq_str(line, "DDAKLUB") || str_eq_str(
        line,
        "GET ALL AS JSON",
    ) || str_eq_str(line, "GET ALL") {
        proof {
            assert(out.deep_view() =~~= spec_demand(line@, state@));
        }
        return out;
    }
    if str_eq_str(line, "CLEAR") || str_eq_str(line, "FLUSH") {
        out.push(state.current.clone());
        proof {
            assert(out@.len() == 1);
            assert(out@[0]@ == state@.current);
            assert(out.deep_view() =~~= spec_demand(line@, state@));
        }
        return out;
    }
    if str_eq_str(line, "CLEAR ALL") || str_eq_str(line, "FLUSH ALL") {
        let n = state.stores.len();
        let mut i: usize = 0;
        while i < n
            invariant
                i <= n,
                n == state.stores@.len(),
                out@.len() == i,
                forall|k: int| 0 <= k < i ==> (#[trigger] out@[k])@ == state@.stores[k].name,
            decreases n - i,
        {
            proof {
                assert(state@.stores[i as int] == state.stores@[i as int]@);
            }
            out.push(state.stores[i].name.clone());
            i += 1;
        }
        proof {
            assert(out.deep_view() =~~= spec_demand(line@, state@));
        }
        return out;
    }
    if state.is_adding {
        out.push(state.current.clone());
        proof {
            assert(out@[0]@ == state@.current);
            assert(out.deep_view() =~~= spec_demand(line@, state@));
        }
        return out;
    }
    if str_prefix(line, "ADD ") {
        out.push(state.current.clone());
        proof {
            assert(out@[0]@ == state@.current);
            assert(out.deep_view() =~~= spec_demand(line@, state@));
        }
        return out;
    }
    if str_prefix(line, "CREATE ") {
        proof {
            assert(out.deep_view() =~~= spec_demand(line@, state@));
        }
        return out;
    }
    if str_prefix(line, "USE ") {
        let n = line.unicode_len();
        out.push(substr_string(line, 4, n));
        proof {
            assert(out@[0]@ == use_name(line@));
            assert(out.deep_view() =~~= spec_demand(line@, state@));
        }
        return out;
    }
    proof {
        assert(out.deep_view() =~~= spec_demand(line@, state@));
    }
    out
}

} // verus!
