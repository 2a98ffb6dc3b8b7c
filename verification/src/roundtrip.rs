//! The codec round trip: a batch image decodes to exactly the updates that
//! were encoded.
use vstd::prelude::*;
use crate::codec::{
    ascii_bytes, be8, bool_byte, bytes_chars, dec_batch, dec_record, dec_records, enc_batch,
    enc_records, enc_update, lemma_be8_roundtrip,
};
use crate::text::{lemma_num_text_ascii, valid_num_text};
use crate::update::UpdateModel;

verus! {

/// ASCII text survives the trip through bytes.
proof fn lemma_ascii_chars_roundtrip(s: Seq<char>)
    requires
        valid_num_text(s),
    ensures
        bytes_chars(ascii_bytes(s)) == s,
        ascii_bytes(s).len() == s.len(),
{
    lemma_num_text_ascii(s);
    assert forall|k: int| 0 <= k < s.len() implies bytes_chars(ascii_bytes(s))[k] == s[k] by {
        assert(s[k] <= '\u{7f}');
        assert(ascii_bytes(s)[k] == s[k] as u8);
    }
    assert(bytes_chars(ascii_bytes(s)) =~= s);
}

/// The length of one record image.
proof fn lemma_enc_update_len(m: UpdateModel)
    ensures
        enc_update(m).len() == 34 + m.price.len() + m.size.len(),
{
}

/// The records of a batch, read from the front.
proof fn lemma_enc_records_first(us: Seq<UpdateModel>)
    requires
        us.len() > 0,
    ensures
        enc_records(us) == enc_update(us[0]) + enc_records(us.drop_first()),
    decreases us.len(),
{
    if us.len() == 1 {
        assert(us.drop_last() =~= Seq::<UpdateModel>::empty());
        assert(us.drop_first() =~= Seq::<UpdateModel>::empty());
        assert(us.last() == us[0]);
        assert(Seq::<u8>::empty() + enc_update(us[0]) =~= enc_update(us[0]) + Seq::<u8>::empty());
    } else {
        let dl = us.drop_last();
        lemma_enc_records_first(dl);
        assert(dl[0] == us[0]);
        assert(us.drop_first().drop_last() =~= dl.drop_first());
        assert(us.drop_first().last() == us.last());
        assert(enc_records(us.drop_first()) == enc_records(us.drop_first().drop_last())
            + enc_update(us.drop_first().last()));
        assert((enc_update(us[0]) + enc_records(dl.drop_first())) + enc_update(us.last())
            =~= enc_update(us[0]) + (enc_records(dl.drop_first()) + enc_update(us.last())));
    }
}

/// One encoded record at `i` decodes to the update it came from.
#[verifier::rlimit(100)]
#[verifier::spinoff_prover]
proof fn lemma_dec_record_of_enc(b: Seq<u8>, i: int, m: UpdateModel)
    requires
        m.wf(),
        0 <= i,
        i + enc_update(m).len() <= b.len(),
        b.subrange(i, i + enc_update(m).len()) == enc_update(m),
    ensures
        dec_record(b, i) == Some((m, i + enc_update(m).len())),
{
    let pl = m.price.len() as int;
    let sl = m.size.len() as int;
    lemma_enc_update_len(m);
    lemma_ascii_chars_roundtrip(m.price);
    lemma_ascii_chars_roundtrip(m.size);
    let e = enc_update(m);
    let p2 = be8(m.ts) + be8(m.seq as u64);
    let p3 = p2 + seq![bool_byte(m.is_trade), bool_byte(m.is_bid)];
    let p4 = p3 + be8(pl as u64);
    let p5 = p4 + ascii_bytes(m.price);
    let p6 = p5 + be8(sl as u64);
    assert(e == p6 + ascii_bytes(m.size));
    assert forall|k: int| 0 <= k < 34 + pl + sl implies b[i + k] == e[k] by {
        assert(b.subrange(i, i + e.len())[k] == b[i + k]);
    }
    // carve each field out of the record, one concatenation level at a time
    assert(e.subrange(0, 8) =~= p6.subrange(0, 8));
    assert(p6.subrange(0, 8) =~= p5.subrange(0, 8));
    assert(p5.subrange(0, 8) =~= p4.subrange(0, 8));
    assert(p4.subrange(0, 8) =~= p3.subrange(0, 8));
    assert(p3.subrange(0, 8) =~= p2.subrange(0, 8));
    assert(p2.subrange(0, 8) =~= be8(m.ts));
    assert(e.subrange(8, 16) =~= p6.subrange(8, 16));
    assert(p6.subrange(8, 16) =~= p5.subrange(8, 16));
    assert(p5.subrange(8, 16) =~= p4.subrange(8, 16));
    assert(p4.subrange(8, 16) =~= p3.subrange(8, 16));
    assert(p3.subrange(8, 16) =~= p2.subrange(8, 16));
    assert(p2.subrange(8, 16) =~= be8(m.seq as u64));
    assert(e[16] == p3[16] && p3[16] == bool_byte(m.is_trade));
    assert(e[17] == p3[17] && p3[17] == bool_byte(m.is_bid));
    assert(e.subrange(18, 26) =~= p6.subrange(18, 26));
    assert(p6.subrange(18, 26) =~= p5.subrange(18, 26));
    assert(p5.subrange(18, 26) =~= p4.subrange(18, 26));
    assert(p4.subrange(18, 26) =~= be8(pl as u64));
    assert(e.subrange(26, 26 + pl) =~= p6.subrange(26, 26 + pl));
    assert(p6.subrange(26, 26 + pl) =~= p5.subrange(26, 26 + pl));
    assert(p5.subrange(26, 26 + pl) =~= ascii_bytes(m.price));
    assert(e.subrange(26 + pl, 34 + pl) =~= p6.subrange(26 + pl, 34 + pl));
    assert(p6.subrange(26 + pl, 34 + pl) =~= be8(sl as u64));
    assert(e.subrange(34 + pl, 34 + pl + sl) =~= ascii_bytes(m.size));
    // the same fields as read from `b`
    assert(b.subrange(i, i + 8) =~= e.subrange(0, 8));
    assert(b.subrange(i + 8, i + 16) =~= e.subrange(8, 16));
    assert(b.subrange(i + 18, i + 26) =~= e.subrange(18, 26));
    assert(b.subrange(i + 26, i + 26 + pl) =~= e.subrange(26, 26 + pl));
    assert(b.subrange(i + 26 + pl, i + 34 + pl) =~= e.subrange(26 + pl, 34 + pl));
    assert(b.subrange(i + 34 + pl, i + 34 + pl + sl) =~= e.subrange(34 + pl, 34 + pl + sl));
    lemma_be8_roundtrip(m.ts);
    lemma_be8_roundtrip(m.seq as u64);
    lemma_be8_roundtrip(pl as u64);
    lemma_be8_roundtrip(sl as u64);
    let (m2, j) = dec_record(b, i)->0;
    assert(m2.price == m.price);
    assert(m2.size == m.size);
    assert(m2 == m);
}

/// Encoded records at `i` through the end decode to the updates they came
/// from.
#[verifier::rlimit(100)]
#[verifier::spinoff_prover]
proof fn lemma_dec_records_of_enc(b: Seq<u8>, i: int, us: Seq<UpdateModel>)
    requires
        0 <= i <= b.len(),
        forall|k: int| 0 <= k < us.len() ==> (#[trigger] us[k]).wf(),
        b.subrange(i, b.len() as int) == enc_records(us),
    ensures
        dec_records(b, i, us.len()) == Some(us),
    decreases us.len(),
{
    if us.len() == 0 {
        assert(enc_records(us) =~= Seq::<u8>::empty());
        assert(i == b.len());
        assert(us =~= Seq::<UpdateModel>::empty());
    } else {
        lemma_enc_records_first(us);
        let m = us[0];
        assert(m.wf());
        let el = enc_update(m).len() as int;
        let r = enc_records(us);
        assert(r.len() == el + enc_records(us.drop_first()).len());
        assert forall|k: int| 0 <= k < b.len() - i implies b[i + k] == r[k] by {
            assert(b.subrange(i, b.len() as int)[k] == b[i + k]);
        }
        assert(r.subrange(0, el) =~= enc_update(m));
        assert(b.subrange(i, i + el) =~= r.subrange(0, el));
        lemma_dec_record_of_enc(b, i, m);
        assert(r.subrange(el, r.len() as int) =~= enc_records(us.drop_first()));
        assert(b.subrange(i + el, b.len() as int) =~= r.subrange(el, r.len() as int));
        assert(forall|k: int|
            0 <= k < us.drop_first().len() ==> (#[trigger] us.drop_first()[k]).wf());
        lemma_dec_records_of_enc(b, i + el, us.drop_first());
        assert(seq![m] + us.drop_first() =~= us);
    }
}

/// The round trip: decoding a batch image yields exactly the well-formed
/// updates that were encoded.
pub proof fn lemma_batch_roundtrip(us: Seq<UpdateModel>)
    requires
        us.len() <= u64::MAX,
        forall|k: int| 0 <= k < us.len() ==> (#[trigger] us[k]).wf(),
    ensures
        dec_batch(enc_batch(us)) == Some(us),
{
    let b = enc_batch(us);
    assert(b.subrange(0, 8) =~= be8(us.len() as u64));
    lemma_be8_roundtrip(us.len() as u64);
    assert(b.subrange(8, b.len() as int) =~= enc_records(us));
    lemma_dec_records_of_enc(b, 8, us);
}

} // verus!
