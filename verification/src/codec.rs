//! The binary image of a batch of updates.
//!
//! A batch is a count followed by the records; every integer is eight
//! big-endian bytes. One record is the timestamp, the sequence number, one
//! byte per flag, then the price and size texts, each preceded by its
//! length. The same image serves as the on-disk file body and as the
//! binary wire payload.
use vstd::prelude::*;
use vstd::string::StrSliceExecFns;
use crate::text::{is_num_char, valid_num_text};
use crate::update::{ok_num_field, views_of, Update, UpdateModel};

verus! {

/// The eight bytes of `n`, most significant first.
pub open spec fn be8(n: u64) -> Seq<u8> {
    seq![
        (n >> 56) as u8,
        (n >> 48) as u8,
        (n >> 40) as u8,
        (n >> 32) as u8,
        (n >> 24) as u8,
        (n >> 16) as u8,
        (n >> 8) as u8,
        n as u8,
    ]
}

/// The value whose big-endian bytes an eight-byte sequence holds.
pub open spec fn be8_val(b: Seq<u8>) -> u64 {
    (((b[0] as u64) << 56) | ((b[1] as u64) << 48) | ((b[2] as u64) << 40) | ((b[3] as u64) << 32)
        | ((b[4] as u64) << 24) | ((b[5] as u64) << 16) | ((b[6] as u64) << 8) | (b[7] as u64))
}

pub proof fn lemma_be8_roundtrip(n: u64)
    ensures
        be8_val(be8(n)) == n,
{
    assert((((((n >> 56) as u8) as u64) << 56) | ((((n >> 48) as u8) as u64) << 48) | ((((n
        >> 40) as u8) as u64) << 40) | ((((n >> 32) as u8) as u64) << 32) | ((((n
        >> 24) as u8) as u64) << 24) | ((((n >> 16) as u8) as u64) << 16) | ((((n
        >> 8) as u8) as u64) << 8) | ((n as u8) as u64)) == n) by (bit_vector);
}

/// Relies on `byteorder::BigEndian::write_u64`: it stores the eight bytes
/// of `n` in big-endian order.
#[verifier::external_body]
pub(crate) fn be_u64_bytes(n: u64) -> (r: Vec<u8>)
    ensures
        r@ == be8(n),
{
    let mut b = vec![0u8; 8];
    <byteorder::BigEndian as byteorder::ByteOrder>::write_u64(&mut b, n);
    b
}

/// Relies on `byteorder::BigEndian::read_u64`: it reads the value whose
/// big-endian bytes the eight bytes at `off` hold.
#[verifier::external_body]
fn be_u64_read(b: &Vec<u8>, off: usize) -> (r: u64)
    requires
        off + 8 <= b@.len(),
    ensures
        r == be8_val(b@.subrange(off as int, off as int + 8)),
{
    <byteorder::BigEndian as byteorder::ByteOrder>::read_u64(&b[off..off + 8])
}

/// The characters a byte sequence spells.
pub open spec fn bytes_chars(b: Seq<u8>) -> Seq<char> {
    b.map_values(|x: u8| x as char)
}

/// The bytes of an ASCII character sequence.
pub open spec fn ascii_bytes(s: Seq<char>) -> Seq<u8> {
    s.map_values(|c: char| c as u8)
}

pub open spec fn bool_byte(b: bool) -> u8 {
    if b { 1 } else { 0 }
}

/// The record image of one update.
pub open spec fn enc_update(m: UpdateModel) -> Seq<u8> {
    be8(m.ts) + be8(m.seq as u64) + seq![bool_byte(m.is_trade), bool_byte(m.is_bid)] + be8(
        m.price.len() as u64,
    ) + ascii_bytes(m.price) + be8(m.size.len() as u64) + ascii_bytes(m.size)
}

pub open spec fn enc_records(us: Seq<UpdateModel>) -> Seq<u8>
    decreases us.len(),
{
    if us.len() == 0 {
        seq![]
    } else {
        enc_records(us.drop_last()) + enc_update(us.last())
    }
}

/// The batch image: the count, then the records.
pub open spec fn enc_batch(us: Seq<UpdateModel>) -> Seq<u8> {
    be8(us.len() as u64) + enc_records(us)
}

/// The count a file image reports; a missing or short image counts zero.
pub open spec fn spec_file_count(b: Seq<u8>) -> u64 {
    if b.len() >= 8 {
        be8_val(b.subrange(0, 8))
    } else {
        0
    }
}

/// One record read at position `i`: the update and the position after it.
pub open spec fn dec_record(b: Seq<u8>, i: int) -> Option<(UpdateModel, int)> {
    if !(0 <= i && i + 26 <= b.len()) {
        None
    } else {
        let ts = be8_val(b.subrange(i, i + 8));
        let sq = be8_val(b.subrange(i + 8, i + 16));
        let tb = b[i + 16];
        let db = b[i + 17];
        let pl = be8_val(b.subrange(i + 18, i + 26)) as int;
        if !(pl <= 65535 && i + 34 + pl <= b.len()) {
            None
        } else {
            let price = bytes_chars(b.subrange(i + 26, i + 26 + pl));
            let sl = be8_val(b.subrange(i + 26 + pl, i + 34 + pl)) as int;
            if !(sl <= 65535 && i + 34 + pl + sl <= b.len()) {
                None
            } else {
                let size = bytes_chars(b.subrange(i + 34 + pl, i + 34 + pl + sl));
                if sq <= u32::MAX && tb <= 1 && db <= 1 && ok_num_field(price) && ok_num_field(
                    size,
                ) {
                    Some(
                        (
                            UpdateModel {
                                ts,
                                seq: sq as u32,
                                is_trade: tb == 1,
                                is_bid: db == 1,
                                price,
                                size,
                            },
                            i + 34 + pl + sl,
                        ),
                    )
                } else {
                    None
                }
            }
        }
    }
}

/// `k` records read from position `i`, consuming the image exactly.
pub open spec fn dec_records(b: Seq<u8>, i: int, k: nat) -> Option<Seq<UpdateModel>>
    decreases k,
{
    if k == 0 {
        if i == b.len() {
            Some(seq![])
        } else {
            None
        }
    } else {
        match dec_record(b, i) {
            None => None,
            Some((m, j)) => match dec_records(b, j, (k - 1) as nat) {
                None => None,
                Some(rest) => Some(seq![m] + rest),
            },
        }
    }
}

/// What a batch image denotes, when well formed.
pub open spec fn dec_batch(b: Seq<u8>) -> Option<Seq<UpdateModel>> {
    if b.len() < 8 {
        None
    } else {
        dec_records(b, 8, be8_val(b.subrange(0, 8)) as nat)
    }
}

/// The count a batch image reports.
pub fn file_count(b: &Vec<u8>) -> (r: u64)
    ensures
        r == spec_file_count(b@),
{
    if b.len() < 8 {
        0
    } else {
        be_u64_read(b, 0)
    }
}

/// The record image of one update, built.
fn enc_update_vec(u: &Update) -> (r: Vec<u8>)
    requires
        u.wf(),
    ensures
        r@ == enc_update(u@),
{
    let mut out = be_u64_bytes(u.ts);
    let mut part = be_u64_bytes(u.seq as u64);
    out.append(&mut part);
    out.push(if u.is_trade { 1 } else { 0 });
    out.push(if u.is_bid { 1 } else { 0 });
    proof {
        crate::text::lemma_num_text_ascii(u.price@);
        crate::text::lemma_num_text_ascii(u.size@);
    }
    let ps = u.price.as_str();
    let mut pb = ps.as_bytes_vec();
    proof {
        vstd::string::is_ascii_spec_bytes(ps);
        assert(pb@ =~= ascii_bytes(u.price@));
        assert(u.price@.len() == pb@.len());
    }
    let mut part = be_u64_bytes(pb.len() as u64);
    out.append(&mut part);
    out.append(&mut pb);
    let ss = u.size.as_str();
    let mut sb = ss.as_bytes_vec();
    proof {
        vstd::string::is_ascii_spec_bytes(ss);
        assert(sb@ =~= ascii_bytes(u.size@));
        assert(u.size@.len() == sb@.len());
    }
    let mut part = be_u64_bytes(sb.len() as u64);
    out.append(&mut part);
    out.append(&mut sb);
    proof {
        assert(out@ =~= enc_update(u@));
    }
    out
}

pub proof fn lemma_enc_records_push(us: Seq<UpdateModel>, m: UpdateModel)
    ensures
        enc_records(us.push(m)) == enc_records(us) + enc_update(m),
{
    assert(us.push(m).drop_last() =~= us);
    assert(us.push(m).last() == m);
}

/// The batch image of a buffer of well-formed updates.
pub fn encode_batch(v: &Vec<Update>) -> (r: Vec<u8>)
    requires
        forall|i: int| 0 <= i < v@.len() ==> (#[trigger] v@[i]).wf(),
    ensures
        r@ == enc_batch(views_of(v@)),
{
    let mut out = be_u64_bytes(v.len() as u64);
    let mut i: usize = 0;
    proof {
        assert(views_of(v@).len() == v@.len());
        assert(views_of(v@.subrange(0, 0)) =~= Seq::<UpdateModel>::empty());
    }
    while i < v.len()
        invariant
            i <= v@.len(),
            forall|k: int| 0 <= k < v@.len() ==> (#[trigger] v@[k]).wf(),
            out@ == be8(v@.len() as u64) + enc_records(views_of(v@.subrange(0, i as int))),
        decreases v@.len() - i,
    {
        let mut rec = enc_update_vec(&v[i]);
        proof {
            assert(views_of(v@.subrange(0, i + 1)) =~= views_of(v@.subrange(0, i as int)).push(
                v@[i as int]@,
            ));
            lemma_enc_records_push(views_of(v@.subrange(0, i as int)), v@[i as int]@);
        }
        out.append(&mut rec);
        i += 1;
    }
    proof {
        assert(v@.subrange(0, v@.len() as int) =~= v@);
    }
    out
}

/// One character per byte of the number grammar; other bytes are refused.
fn num_byte_char(x: u8) -> (r: Option<char>)
    ensures
        r is Some <==> (is_num_char(x as char) || x as char == '-'),
        r is Some ==> r->0 == x as char,
{
    if x == 45 {
        Some('-')
    } else if x == 46 {
        Some('.')
    } else if 48 <= x && x <= 57 {
        let c: char = x as char;
        Some(c)
    } else {
        None
    }
}

/// The characters of a byte range, when all belong to the number grammar.
fn bytes_num_chars(b: &Vec<u8>, from: usize, to: usize) -> (r: Option<Vec<char>>)
    requires
        from <= to <= b@.len(),
    ensures
        r is Some <==> (forall|k: int|
            from <= k < to ==> is_num_char((#[trigger] b@[k]) as char) || b@[k] as char == '-'),
        r is Some ==> r->0@ == bytes_chars(b@.subrange(from as int, to as int)),
{
    let mut out: Vec<char> = Vec::new();
    let mut j: usize = from;
    proof {
        assert(bytes_chars(b@.subrange(from as int, from as int)) =~= Seq::<char>::empty());
    }
    while j < to
        invariant
            from <= j <= to <= b@.len(),
            out@ == bytes_chars(b@.subrange(from as int, j as int)),
            forall|k: int|
                from <= k < j ==> is_num_char((#[trigger] b@[k]) as char) || b@[k] as char == '-',
        decreases to - j,
    {
        match num_byte_char(b[j]) {
            Some(c) => {
                proof {
                    assert(bytes_chars(b@.subrange(from as int, j + 1)) =~= bytes_chars(
                        b@.subrange(from as int, j as int),
                    ).push(b@[j as int] as char));
                }
                out.push(c);
            },
            None => {
                return None;
            },
        }
        j += 1;
    }
    Some(out)
}

/// One record parsed at `off`; exactly what [`dec_record`] denotes.
fn parse_record(b: &Vec<u8>, off: usize) -> (r: Option<(Update, usize)>)
    requires
        off <= b@.len(),
    ensures
        r is Some <==> dec_record(b@, off as int) is Some,
        r is Some ==> ({
            let (m, j) = dec_record(b@, off as int)->0;
            let (u, noff) = r->0;
            u@ == m && noff as int == j && u.wf()
        }),
{
    if b.len() - off < 26 {
        return None;
    }
    let ts = be_u64_read(b, off);
    let sq = be_u64_read(b, off + 8);
    let tb = b[off + 16];
    let db = b[off + 17];
    let pl64 = be_u64_read(b, off + 18);
    if pl64 > 65535 {
        return None;
    }
    let pl = pl64 as usize;
    if b.len() - (off + 26) < pl + 8 {
        return None;
    }
    let pchars = match bytes_num_chars(b, off + 26, off + 26 + pl) {
        Some(v) => v,
        None => {
            proof {
                lemma_bad_byte_bad_field(b@, off as int + 26, off as int + 26 + pl as int);
            }
            return None;
        },
    };
    let sl64 = be_u64_read(b, off + 26 + pl);
    if sl64 > 65535 {
        return None;
    }
    let sl = sl64 as usize;
    if b.len() - (off + 34 + pl) < sl {
        return None;
    }
    let schars = match bytes_num_chars(b, off + 34 + pl, off + 34 + pl + sl) {
        Some(v) => v,
        None => {
            proof {
                lemma_bad_byte_bad_field(
                    b@,
                    off as int + 34 + pl as int,
                    off as int + 34 + pl as int + sl as int,
                );
            }
            return None;
        },
    };
    if sq > u32::MAX as u64 || tb > 1 || db > 1 {
        return None;
    }
    let (pvalid, pneg) = crate::parser::check_num_field(&pchars);
    if !pvalid || pneg {
        return None;
    }
    let (svalid, sneg) = crate::parser::check_num_field(&schars);
    if !svalid || sneg {
        return None;
    }
    proof {
        crate::parser::lemma_num_field_chars(pchars@);
        crate::parser::lemma_num_field_chars(schars@);
    }
    let price = crate::text::num_chars_to_string(&pchars);
    let size = crate::text::num_chars_to_string(&schars);
    let u = Update { ts, seq: sq as u32, is_trade: tb == 1, is_bid: db == 1, price, size };
    Some((u, off + 34 + pl + sl))
}

/// A byte outside the number grammar makes the spelled text invalid.
proof fn lemma_bad_byte_bad_field(b: Seq<u8>, from: int, to: int)
    requires
        0 <= from <= to <= b.len(),
        exists|k: int|
            from <= k < to && !(is_num_char((#[trigger] b[k]) as char) || b[k] as char == '-'),
    ensures
        !ok_num_field(bytes_chars(b.subrange(from, to))),
{
    let k = choose|k: int|
        from <= k < to && !(is_num_char((#[trigger] b[k]) as char) || b[k] as char == '-');
    let s = bytes_chars(b.subrange(from, to));
    assert(s[k - from] == b[k] as char);
    if valid_num_text(s) {
        let body = crate::text::num_body(s);
        if s.len() > 0 && s[0] == '-' {
            assert(k - from > 0);
            assert(body[k - from - 1] == s[k - from]);
        } else {
            assert(body[k - from] == s[k - from]);
        }
    }
}

/// A whole batch image parsed; exactly what [`dec_batch`] denotes, and
/// every update returned is well-formed.
pub fn decode_batch(b: &Vec<u8>) -> (r: Option<Vec<Update>>)
    ensures
        r is Some <==> dec_batch(b@) is Some,
        r is Some ==> views_of(r->0@) == dec_batch(b@)->0,
        r is Some ==> forall|i: int| 0 <= i < r->0@.len() ==> (#[trigger] r->0@[i]).wf(),
{
    if b.len() < 8 {
        return None;
    }
    let n = be_u64_read(b, 0);
    let mut out: Vec<Update> = Vec::new();
    let mut off: usize = 8;
    let mut k: u64 = 0;
    proof {
        assert(views_of(out@) =~= Seq::<UpdateModel>::empty());
        assert(opt_prepend(views_of(out@), dec_records(b@, 8, n as nat)) == dec_records(
            b@,
            8,
            n as nat,
        ));
    }
    while k < n
        invariant
            k <= n,
            off <= b@.len(),
            b@.len() >= 8,
            n == be8_val(b@.subrange(0, 8)),
            dec_batch(b@) == opt_prepend(views_of(out@), dec_records(b@, off as int, (n - k) as nat)),
            forall|i: int| 0 <= i < out@.len() ==> (#[trigger] out@[i]).wf(),
        decreases n - k,
    {
        match parse_record(b, off) {
            Some((u, j)) => {
                proof {
                    let (m, jj) = dec_record(b@, off as int)->0;
                    assert(views_of(out@.push(u)) =~= views_of(out@).push(u@));
                    lemma_opt_prepend_push(views_of(out@), m, dec_records(b@, jj, (n - k - 1) as nat));
                }
                out.push(u);
                off = j;
            },
            None => {
                return None;
            },
        }
        k += 1;
    }
    if off != b.len() {
        return None;
    }
    proof {
        assert(dec_records(b@, off as int, 0) == Some(Seq::<UpdateModel>::empty()));
        assert(views_of(out@) + Seq::<UpdateModel>::empty() =~= views_of(out@));
    }
    Some(out)
}

/// Prepends a prefix to an optional sequence.
pub open spec fn opt_prepend(pre: Seq<UpdateModel>, o: Option<Seq<UpdateModel>>) -> Option<
    Seq<UpdateModel>,
> {
    match o {
        None => None,
        Some(s) => Some(pre + s),
    }
}

proof fn lemma_opt_prepend_push(pre: Seq<UpdateModel>, m: UpdateModel, o: Option<Seq<UpdateModel>>)
    ensures
        opt_prepend(pre, match o {
            None => None,
            Some(rest) => Some(seq![m] + rest),
        }) == opt_prepend(pre.push(m), o),
{
    match o {
        None => {},
        Some(rest) => {
            assert(pre + (seq![m] + rest) =~= pre.push(m) + rest);
        },
    }
}

/// The greatest timestamp in a batch; zero when it is empty.
pub open spec fn max_ts(us: Seq<UpdateModel>) -> u64
    decreases us.len(),
{
    if us.len() == 0 {
        0
    } else {
        let m = max_ts(us.drop_last());
        if us.last().ts > m {
            us.last().ts
        } else {
            m
        }
    }
}

/// The updates strictly newer than `t`, in order.
pub open spec fn keep_newer(us: Seq<UpdateModel>, t: u64) -> Seq<UpdateModel>
    decreases us.len(),
{
    if us.len() == 0 {
        seq![]
    } else {
        keep_newer(us.drop_last(), t) + (if us.last().ts > t {
            seq![us.last()]
        } else {
            seq![]
        })
    }
}

/// What a flush writes: a fresh image of the buffer when no file exists;
/// otherwise the old records followed by the strictly-newer part of the
/// buffer. `None` when the existing image cannot be read.
pub open spec fn spec_flush(file: Option<Seq<u8>>, v: Seq<UpdateModel>) -> Option<Seq<u8>> {
    match file {
        None => Some(enc_batch(v)),
        Some(b) => match dec_batch(b) {
            None => None,
            Some(old) => Some(enc_batch(old + keep_newer(v, max_ts(old)))),
        },
    }
}

/// The greatest timestamp of a buffer, computed.
fn max_ts_vec(v: &Vec<Update>) -> (r: u64)
    ensures
        r == max_ts(views_of(v@)),
{
    let mut m: u64 = 0;
    let mut i: usize = 0;
    proof {
        assert(views_of(v@.subrange(0, 0)) =~= Seq::<UpdateModel>::empty());
    }
    while i < v.len()
        invariant
            i <= v@.len(),
            m == max_ts(views_of(v@.subrange(0, i as int))),
        decreases v@.len() - i,
    {
        proof {
            assert(views_of(v@.subrange(0, i + 1)).drop_last() =~= views_of(
                v@.subrange(0, i as int),
            ));
            assert(views_of(v@.subrange(0, i + 1)).last() == v@[i as int]@);
        }
        if v[i].ts > m {
            m = v[i].ts;
        }
        i += 1;
    }
    proof {
        assert(v@.subrange(0, v@.len() as int) =~= v@);
    }
    m
}

/// The new file image a flush produces, or `None` when the existing image
/// cannot be read.
pub fn flush_image(file: &Option<Vec<u8>>, v: &Vec<Update>) -> (r: Option<Vec<u8>>)
    requires
        forall|i: int| 0 <= i < v@.len() ==> (#[trigger] v@[i]).wf(),
    ensures
        r is Some <==> spec_flush(spec_file(file), views_of(v@)) is Some,
        r is Some ==> r->0@ == spec_flush(spec_file(file), views_of(v@))->0,
{
    match file {
        None => Some(encode_batch(v)),
        Some(b) => {
            let old = match decode_batch(b) {
                Some(o) => o,
                None => {
                    return None;
                },
            };
            let t = max_ts_vec(&old);
            proof {
                assert(views_of(old@) == dec_batch(b@)->0);
            }
            let mut merged = old;
            let mut i: usize = 0;
            proof {
                assert(keep_newer(views_of(v@.subrange(0, 0)), t) =~= Seq::<UpdateModel>::empty());
                assert(views_of(merged@) + Seq::<UpdateModel>::empty() =~= views_of(merged@));
            }
            let ghost base = views_of(merged@);
            while i < v.len()
                invariant
                    i <= v@.len(),
                    forall|k: int| 0 <= k < v@.len() ==> (#[trigger] v@[k]).wf(),
                    forall|k: int| 0 <= k < merged@.len() ==> (#[trigger] merged@[k]).wf(),
                    views_of(merged@) == base + keep_newer(views_of(v@.subrange(0, i as int)), t),
                decreases v@.len() - i,
            {
                proof {
                    assert(views_of(v@.subrange(0, i + 1)).drop_last() =~= views_of(
                        v@.subrange(0, i as int),
                    ));
                    assert(views_of(v@.subrange(0, i + 1)).last() == v@[i as int]@);
                }
                if v[i].ts > t {
                    let u = v[i].clone();
                    proof {
                        assert(views_of(merged@.push(u)) =~= views_of(merged@).push(u@));
                        assert(base + keep_newer(views_of(v@.subrange(0, i + 1)), t) =~= (base
                            + keep_newer(views_of(v@.subrange(0, i as int)), t)).push(v@[i as int]@));
                    }
                    merged.push(u);
                } else {
                    proof {
                        assert(base + keep_newer(views_of(v@.subrange(0, i + 1)), t) =~= base
                            + keep_newer(views_of(v@.subrange(0, i as int)), t));
                    }
                }
                i += 1;
            }
            proof {
                assert(v@.subrange(0, v@.len() as int) =~= v@);
            }
            Some(encode_batch(&merged))
        },
    }
}

/// The model of an optional file image.
pub open spec fn spec_file(f: &Option<Vec<u8>>) -> Option<Seq<u8>> {
    match f {
        Some(b) => Some(b@),
        None => None,
    }
}

} // verus!
