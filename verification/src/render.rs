//! Textual renderings: the store roster for `INFO` and the JSON form of a
//! buffer of updates.
use vstd::prelude::*;
use vstd::string::StringExecFns;
use crate::store::{Store, StoreModel};
use crate::text::{dec_str, u64_to_string};
use crate::update::{views_of, Update, UpdateModel};

verus! {

pub open spec fn bool_str(b: bool) -> Seq<char> {
    if b {
        "true"@
    } else {
        "false"@
    }
}

/// One roster line: the store's name, whether it is in memory, its count.
pub open spec fn info_entry(m: StoreModel) -> Seq<char> {
    "{\"name\": \""@ + m.name + "\", \"in_memory\": "@ + bool_str(m.in_memory) + ", \"count\": "@
        + dec_str(m.size as nat) + "}"@
}

/// The roster lines, joined by a comma and a space.
pub open spec fn info_entries(stores: Seq<StoreModel>) -> Seq<char>
    decreases stores.len(),
{
    if stores.len() == 0 {
        Seq::empty()
    } else if stores.len() == 1 {
        info_entry(stores[0])
    } else {
        info_entries(stores.drop_last()) + ", "@ + info_entry(stores.last())
    }
}

/// The whole `INFO` response.
pub open spec fn info_json(stores: Seq<StoreModel>) -> Seq<char> {
    "["@ + info_entries(stores) + "]\n"@
}

/// The JSON form of one update.
pub open spec fn update_json(m: UpdateModel) -> Seq<char> {
    "{\"ts\":"@ + dec_str(m.ts as nat) + ",\"seq\":"@ + dec_str(m.seq as nat) + ",\"is_trade\":"@
        + bool_str(m.is_trade) + ",\"is_bid\":"@ + bool_str(m.is_bid) + ",\"price\":"@ + m.price
        + ",\"size\":"@ + m.size + "}"@
}

/// The JSON forms, joined by commas.
pub open spec fn updates_json(us: Seq<UpdateModel>) -> Seq<char>
    decreases us.len(),
{
    if us.len() == 0 {
        Seq::empty()
    } else if us.len() == 1 {
        update_json(us[0])
    } else {
        updates_json(us.drop_last()) + ","@ + update_json(us.last())
    }
}

fn bool_lit(b: bool) -> (r: &'static str)
    ensures
        r@ == bool_str(b),
{
    if b {
        "true"
    } else {
        "false"
    }
}

/// Renders one roster entry into `out`.
fn push_info_entry(out: &mut String, st: &Store)
    ensures
        final(out)@ == old(out)@ + info_entry(st@),
{
    out.append("{\"name\": \"");
    out.append(st.name.as_str());
    out.append("\", \"in_memory\": ");
    out.append(bool_lit(st.in_memory));
    out.append(", \"count\": ");
    let cnt = u64_to_string(st.size);
    out.append(cnt.as_str());
    out.append("}");
    proof {
        assert(final(out)@ =~= old(out)@ + info_entry(st@));
    }
}

/// The `INFO` response over a roster of stores.
pub fn render_info(stores: &Vec<Store>) -> (r: String)
    ensures
        r@ == info_json(stores@.map_values(|s: Store| s@)),
{
    let ghost models = stores@.map_values(|s: Store| s@);
    let mut out = String::new();
    out.append("[");
    let mut i: usize = 0;
    proof {
        assert(out@ =~= "["@ + info_entries(models.subrange(0, 0)));
    }
    while i < stores.len()
        invariant
            i <= stores@.len(),
            models == stores@.map_values(|s: Store| s@),
            models.len() == stores@.len(),
            out@ == "["@ + info_entries(models.subrange(0, i as int)),
        decreases stores@.len() - i,
    {
        proof {
            assert(models.subrange(0, i + 1).drop_last() =~= models.subrange(0, i as int));
            assert(models.subrange(0, i + 1).last() == models[i as int]);
            assert(models[i as int] == stores@[i as int]@);
        }
        if i > 0 {
            out.append(", ");
            proof {
                assert(models.subrange(0, i as int).len() > 0);
            }
        }
        push_info_entry(&mut out, &stores[i]);
        proof {
            if i == 0 {
                assert(models.subrange(0, 1).len() == 1);
                assert(models.subrange(0, 1)[0] == models[0]);
                assert(out@ =~= "["@ + info_entries(models.subrange(0, 1)));
            } else {
                assert(out@ =~= "["@ + info_entries(models.subrange(0, i + 1)));
            }
        }
        i += 1;
    }
    out.append("]\n");
    proof {
        assert(models.subrange(0, models.len() as int) =~= models);
        assert(out@ =~= info_json(models));
    }
    out
}

/// Renders the JSON form of one update into `out`.
fn push_update_json(out: &mut String, u: &Update)
    ensures
        final(out)@ == old(out)@ + update_json(u@),
{
    out.append("{\"ts\":");
    let ts = u64_to_string(u.ts);
    out.append(ts.as_str());
    out.append(",\"seq\":");
    let sq = u64_to_string(u.seq as u64);
    out.append(sq.as_str());
    out.append(",\"is_trade\":");
    out.append(bool_lit(u.is_trade));
    out.append(",\"is_bid\":");
    out.append(bool_lit(u.is_bid));
    out.append(",\"price\":");
    out.append(u.price.as_str());
    out.append(",\"size\":");
    out.append(u.size.as_str());
    out.append("}");
    proof {
        assert(final(out)@ =~= old(out)@ + update_json(u@));
    }
}

/// The JSON array body of the first `k` updates of a buffer.
pub fn render_updates_json(v: &Vec<Update>, k: usize) -> (r: String)
    requires
        k <= v@.len(),
    ensures
        r@ == updates_json(views_of(v@).take(k as int)),
{
    let ghost models = views_of(v@);
    let mut out = String::new();
    let mut i: usize = 0;
    proof {
        assert(out@ =~= updates_json(models.subrange(0, 0)));
    }
    while i < k
        invariant
            i <= k,
            k <= v@.len(),
            models == views_of(v@),
            models.len() == v@.len(),
            out@ == updates_json(models.subrange(0, i as int)),
        decreases k - i,
    {
        proof {
            assert(models.subrange(0, i + 1).drop_last() =~= models.subrange(0, i as int));
            assert(models.subrange(0, i + 1).last() == models[i as int]);
            assert(models[i as int] == v@[i as int]@);
        }
        if i > 0 {
            out.append(",");
            proof {
                assert(models.subrange(0, i as int).len() > 0);
            }
        }
        push_update_json(&mut out, &v[i]);
        proof {
            if i == 0 {
                assert(models.subrange(0, 1).len() == 1);
                assert(models.subrange(0, 1)[0] == models[0]);
                assert(out@ =~= updates_json(models.subrange(0, 1)));
            } else {
                assert(out@ =~= updates_json(models.subrange(0, i + 1)));
            }
        }
        i += 1;
    }
    proof {
        assert(models.subrange(0, k as int) =~= models.take(k as int));
    }
    out
}

} // verus!
