//! Laws the library keeps, stated over the same spec functions the public
//! contracts use.
use vstd::prelude::*;
use crate::codec::{be8, enc_batch, lemma_be8_roundtrip, spec_file_count, spec_flush};
use crate::dispatch::{
    add_outcome, can_insert, classify, spec_inserted, spec_response, CmdKind, RespModel,
};
use crate::disk::DiskEntryModel;
use crate::parser::{spec_parse_line, split_fields};
use crate::render::updates_json;
use crate::state::{
    autoflush_fires, find_idx, lemma_find_idx_found, lemma_find_idx_same_names,
    lemma_wf_after_update, StateModel,
};
use crate::store::StoreModel;
use crate::text::{digits_val, strip_dots};
use crate::update::UpdateModel;
use crate::wire::spec_frame;

verus! {

/// For any record the parser accepts, the timestamp is the digit string of
/// the first field with every decimal point removed, read as a number.
pub proof fn lemma_ts_ignores_dots(s: Seq<char>)
    requires
        spec_parse_line(s) is Some,
    ensures
        split_fields(s) is Some,
        spec_parse_line(s)->0.ts == digits_val(strip_dots(split_fields(s)->0[0])),
{
}

/// The status byte of a framed response is one exactly when the response
/// carries no error message.
pub proof fn lemma_status_byte(r: RespModel)
    ensures
        spec_frame(r).len() >= 1,
        (spec_frame(r)[0] == 1u8) <==> !(r is Error),
{
    match r {
        RespModel::Text(t) => {
            assert(spec_frame(r)[0] == 1u8);
        },
        RespModel::Binary(b) => {
            assert(spec_frame(r)[0] == 1u8);
        },
        RespModel::Error(m) => {
            assert(spec_frame(r)[0] == 0u8);
        },
    }
}

/// The count a batch image reports is the number of updates encoded.
pub proof fn lemma_enc_batch_count(us: Seq<UpdateModel>)
    requires
        us.len() <= u64::MAX,
    ensures
        spec_file_count(enc_batch(us)) == us.len(),
{
    assert(enc_batch(us).subrange(0, 8) =~= be8(us.len() as u64));
    lemma_be8_roundtrip(us.len() as u64);
}

/// What a flush leaves on disk counts exactly the buffered updates when no
/// file existed, and otherwise the old records plus the strictly-newer
/// part of the buffer.
pub proof fn lemma_flush_count(file: Option<Seq<u8>>, v: Seq<UpdateModel>)
    requires
        spec_flush(file, v) is Some,
        match file {
            None => v.len() <= u64::MAX,
            Some(b) => crate::codec::dec_batch(b)->0.len() + crate::codec::keep_newer(
                v,
                crate::codec::max_ts(crate::codec::dec_batch(b)->0),
            ).len() <= u64::MAX,
        },
    ensures
        spec_file_count(spec_flush(file, v)->0) == match file {
            None => v.len(),
            Some(b) => crate::codec::dec_batch(b)->0.len() + crate::codec::keep_newer(
                v,
                crate::codec::max_ts(crate::codec::dec_batch(b)->0),
            ).len(),
        },
{
    match file {
        None => {
            lemma_enc_batch_count(v);
        },
        Some(b) => {
            let old = crate::codec::dec_batch(b)->0;
            let merged = old + crate::codec::keep_newer(v, crate::codec::max_ts(old));
            lemma_enc_batch_count(merged);
        },
    }
}

/// `GET ALL AS JSON` over an empty buffer is the empty JSON array.
pub proof fn lemma_empty_json_array(v: Seq<UpdateModel>)
    requires
        v.len() == 0,
    ensures
        "["@ + updates_json(v) + "]\n"@ == "[]\n"@,
{
    reveal_strlit("[");
    reveal_strlit("]\n");
    reveal_strlit("[]\n");
    assert("["@ + updates_json(v) + "]\n"@ =~= "[]\n"@);
}

/// The states a run of valid bulk-add lines walks through, with the
/// automatic flush off: each parsed update enters the current store.
pub open spec fn bulk_apply(st: StateModel, lines: Seq<Seq<char>>) -> StateModel
    decreases lines.len(),
{
    if lines.len() == 0 {
        st
    } else {
        let st1 = bulk_apply(st, lines.drop_last());
        match spec_parse_line(lines.last()) {
            None => st1,
            Some(m) => if can_insert(st1, st1.current) {
                spec_inserted(st1, m, st1.current)
            } else {
                st1
            },
        }
    }
}

/// A run of `N` valid bulk-add lines grows the current store by exactly
/// `N` updates, in order, when the automatic flush is off and the count
/// stays below its ceiling.
pub proof fn lemma_bulk_add_grows(st: StateModel, lines: Seq<Seq<char>>)
    requires
        st.wf(),
        !st.settings.autoflush,
        forall|k: int| 0 <= k < lines.len() ==> spec_parse_line(#[trigger] lines[k]) is Some,
        st.cur().size + lines.len() <= u64::MAX,
    ensures
        bulk_apply(st, lines).wf(),
        bulk_apply(st, lines).current == st.current,
        bulk_apply(st, lines).settings == st.settings,
        bulk_apply(st, lines).is_adding == st.is_adding,
        bulk_apply(st, lines).cur().size == st.cur().size + lines.len(),
        bulk_apply(st, lines).cur().v == st.cur().v + lines.map_values(
            |l: Seq<char>| spec_parse_line(l)->0,
        ),
    decreases lines.len(),
{
    let parsed = lines.map_values(|l: Seq<char>| spec_parse_line(l)->0);
    if lines.len() == 0 {
        assert(bulk_apply(st, lines).cur().v =~= st.cur().v + parsed);
    } else {
        let front = lines.drop_last();
        assert(forall|k: int|
            0 <= k < front.len() ==> spec_parse_line(#[trigger] front[k]) is Some);
        lemma_bulk_add_grows(st, front);
        let st1 = bulk_apply(st, front);
        let m = spec_parse_line(lines.last())->0;
        lemma_find_idx_found(st1.stores, st1.current);
        assert(can_insert(st1, st1.current));
        let st2 = spec_inserted(st1, m, st1.current);
        let i = find_idx(st1.stores, st1.current);
        assert(st2.stores == st1.stores.update(
            i,
            StoreModel {
                size: (st1.stores[i].size + 1) as u64,
                v: st1.stores[i].v.push(m),
                ..st1.stores[i]
            },
        ));
        assert(st2.stores[i].wf()) by {
            assert(st1.stores[i].wf());
            assert forall|k: int| 0 <= k < st2.stores[i].v.len() implies (
            #[trigger] st2.stores[i].v[k]).wf() by {
                if k < st1.stores[i].v.len() {
                    assert(st1.stores[i].v[k].wf());
                } else {
                    assert(st2.stores[i].v[k] == m);
                }
            }
        }
        lemma_wf_after_update(st1, st2, i);
        lemma_find_idx_same_names(st1.stores, st2.stores, st1.current);
        assert(st2.cur().v =~= st.cur().v + parsed) by {
            assert(front.map_values(|l: Seq<char>| spec_parse_line(l)->0) =~= parsed.drop_last());
            assert(st1.cur().v == st.cur().v + parsed.drop_last());
            assert(st2.cur().v == st1.cur().v.push(m));
            assert(parsed.len() == lines.len());
            assert(parsed[parsed.len() - 1] == m);
        }
    }
}

/// One bulk-add line through the dispatcher is exactly one `bulk_apply`
/// step: with the automatic flush off, the answer is empty text, nothing
/// is written, and the state advances by the parsed update.
pub proof fn lemma_bulk_line_step(st: StateModel, disk: Seq<DiskEntryModel>, line: Seq<char>)
    requires
        st.wf(),
        !st.settings.autoflush,
        st.is_adding,
        classify(line, true) == CmdKind::BulkLine,
        spec_parse_line(line) is Some,
        st.cur().size < u64::MAX,
    ensures
        spec_response(
            line,
            st,
            disk,
            bulk_apply(st, seq![line]),
            RespModel::Text(Seq::empty()),
            Seq::empty(),
        ),
{
    lemma_find_idx_found(st.stores, st.current);
    let m = spec_parse_line(line)->0;
    let st1 = spec_inserted(st, m, st.current);
    assert(!autoflush_fires(st1));
    assert(seq![line].drop_last() =~= Seq::<Seq<char>>::empty());
    assert(seq![line].last() == line);
    assert(bulk_apply(st, Seq::<Seq<char>>::empty()) == st);
    assert(can_insert(st, st.current));
    assert(bulk_apply(st, seq![line]) == st1);
    assert(add_outcome(
        st,
        disk,
        m,
        st.current,
        Seq::empty(),
        st1,
        RespModel::Text(Seq::empty()),
        Seq::empty(),
    ));
}

} // verus!
