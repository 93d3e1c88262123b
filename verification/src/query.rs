//! Serialization of a `VMListFilter` into a query string, and the request
//! URLs of the listing and power-action endpoints. Each present filter
//! field becomes one `name=value` parameter per element, repeated under the
//! same name; absent fields are omitted entirely. Values are
//! percent-encoded over their UTF-8 bytes.
use vstd::prelude::*;
use vstd::utf8::encode_utf8;

use crate::types::{FilterData, PowerAction, PowerState, VMListFilter};

verus! {

/// Bytes that stand for themselves in a query value: ASCII letters,
/// digits, `-`, `.`, `_` and `~`.
pub open spec fn is_unreserved_byte(b: u8) -> bool {
    (48 <= b <= 57) || (65 <= b <= 90) || (97 <= b <= 122) || b == 45 || b == 46 || b == 95 || b
        == 126
}

pub open spec fn hex_digits() -> Seq<char> {
    "0123456789ABCDEF"@
}

/// The characters one byte of a value contributes: itself if unreserved,
/// else a `%` escape with two upper-case hex digits.
pub open spec fn enc_byte(b: u8) -> Seq<char> {
    if is_unreserved_byte(b) {
        seq![b as char]
    } else {
        seq!['%', hex_digits()[(b >> 4) as int], hex_digits()[(b & 15) as int]]
    }
}

/// Percent-encoding of a byte string.
pub open spec fn pct_bytes(bs: Seq<u8>) -> Seq<char>
    decreases bs.len(),
{
    if bs.len() == 0 {
        Seq::empty()
    } else {
        enc_byte(bs[0]) + pct_bytes(bs.drop_first())
    }
}

proof fn lemma_pct_bytes_snoc(bs: Seq<u8>, b: u8)
    ensures
        pct_bytes(bs.push(b)) =~= pct_bytes(bs) + enc_byte(b),
    decreases bs.len(),
{
    let all = bs.push(b);
    if bs.len() == 0 {
        assert(all[0] == b);
        assert(all.drop_first() =~= Seq::<u8>::empty());
        assert(pct_bytes(all.drop_first()) =~= Seq::<char>::empty());
        assert(pct_bytes(all) =~= enc_byte(b) + Seq::<char>::empty());
    } else {
        assert(all[0] == bs[0]);
        assert(all.drop_first() =~= bs.drop_first().push(b));
        lemma_pct_bytes_snoc(bs.drop_first(), b);
        assert(enc_byte(bs[0]) + (pct_bytes(bs.drop_first()) + enc_byte(b)) =~= (enc_byte(bs[0])
            + pct_bytes(bs.drop_first())) + enc_byte(b));
    }
}

/// A filter value on the wire: the percent-encoding of its UTF-8 bytes.
pub open spec fn enc_value(v: Seq<char>) -> Seq<char> {
    pct_bytes(encode_utf8(v))
}

/// Percent-encode one filter value.
pub fn encode_value(v: &str) -> (r: String)
    ensures
        r@ == enc_value(v@),
{
    let bytes = v.as_bytes_vec();
    let hex = "0123456789ABCDEF";
    proof {
        reveal_strlit("0123456789ABCDEF");
        assert(hex@ =~= hex_digits());
        assert(bytes@.take(0) =~= Seq::<u8>::empty());
    }
    let mut out = String::new();
    let mut i: usize = 0;
    while i < bytes.len()
        invariant
            bytes@ == encode_utf8(v@),
            hex@ == hex_digits(),
            hex@.len() == 16,
            i <= bytes.len(),
            out@ == pct_bytes(bytes@.take(i as int)),
        decreases bytes.len() - i,
    {
        let b = bytes[i];
        proof {
            assert(bytes@.take(i as int).push(b) =~= bytes@.take(i as int + 1));
            lemma_pct_bytes_snoc(bytes@.take(i as int), b);
        }
        let unreserved = (48 <= b && b <= 57) || (65 <= b && b <= 90) || (97 <= b && b <= 122) || b
            == 45 || b == 46 || b == 95 || b == 126;
        if unreserved {
            crate::json::push_char(&mut out, b as char);
            proof {
                assert(out@ =~= pct_bytes(bytes@.take(i as int)) + enc_byte(b));
            }
        } else {
            let hi = (b >> 4) as usize;
            let lo = (b & 15) as usize;
            proof {
                assert((b >> 4) < 16 && (b & 15) < 16) by (bit_vector);
            }
            crate::json::push_char(&mut out, '%');
            crate::json::push_char(&mut out, hex.get_char(hi));
            crate::json::push_char(&mut out, hex.get_char(lo));
            proof {
                assert(out@ =~= pct_bytes(bytes@.take(i as int)) + enc_byte(b));
            }
        }
        i += 1;
    }
    proof {
        assert(bytes@.take(bytes@.len() as int) =~= bytes@);
    }
    out
}

/// One `key=value` parameter.
pub open spec fn pair_text(key: Seq<char>, v: Seq<char>) -> Seq<char> {
    key + "="@ + enc_value(v)
}

/// The parameters a present list-valued field contributes, one per element,
/// in element order.
pub open spec fn pairs_of_list(key: Seq<char>, vals: Seq<Seq<char>>) -> Seq<Seq<char>> {
    Seq::new(vals.len(), |i: int| pair_text(key, vals[i]))
}

/// The parameters the `power_states` field contributes: the wire name of
/// each state.
pub open spec fn pairs_of_states(key: Seq<char>, vals: Seq<PowerState>) -> Seq<Seq<char>> {
    Seq::new(vals.len(), |i: int| pair_text(key, vals[i].spec_wire_name()))
}

pub open spec fn opt_pairs(key: Seq<char>, o: Option<Seq<Seq<char>>>) -> Seq<Seq<char>> {
    match o {
        None => Seq::empty(),
        Some(vs) => pairs_of_list(key, vs),
    }
}

pub open spec fn opt_state_pairs(key: Seq<char>, o: Option<Seq<PowerState>>) -> Seq<Seq<char>> {
    match o {
        None => Seq::empty(),
        Some(vs) => pairs_of_states(key, vs),
    }
}

/// Every parameter of the filter, present fields only, in a fixed field
/// order and within a field in element order.
pub open spec fn all_pairs(f: FilterData) -> Seq<Seq<char>> {
    opt_pairs("clusters"@, f.clusters) + opt_pairs("datacenters"@, f.datacenters) + opt_pairs(
        "folders"@,
        f.folders,
    ) + opt_pairs("hosts"@, f.hosts) + opt_pairs("names"@, f.names) + opt_state_pairs(
        "power_states"@,
        f.power_states,
    ) + opt_pairs("resource_pools"@, f.resource_pools) + opt_pairs("vms"@, f.vms)
}

/// Parameters joined with `&`.
pub open spec fn join_amp(parts: Seq<Seq<char>>) -> Seq<char>
    decreases parts.len(),
{
    if parts.len() == 0 {
        Seq::empty()
    } else if parts.len() == 1 {
        parts[0]
    } else {
        parts[0] + seq!['&'] + join_amp(parts.drop_first())
    }
}

proof fn lemma_join_amp_snoc(parts: Seq<Seq<char>>, p: Seq<char>)
    ensures
        join_amp(parts.push(p)) =~= if parts.len() == 0 {
            p
        } else {
            join_amp(parts) + seq!['&'] + p
        },
    decreases parts.len(),
{
    let all = parts.push(p);
    if parts.len() == 0 {
        assert(all.len() == 1);
        assert(all[0] == p);
    } else if parts.len() == 1 {
        assert(all[0] == parts[0]);
        assert(all.drop_first() =~= seq![p]);
        assert(join_amp(all.drop_first()) == seq![p][0]);
        assert(seq![p][0] == p);
        assert(join_amp(parts) == parts[0]);
    } else {
        assert(all[0] == parts[0]);
        assert(all.drop_first() =~= parts.drop_first().push(p));
        lemma_join_amp_snoc(parts.drop_first(), p);
        assert(parts.drop_first().len() > 0);
        assert(parts[0] + seq!['&'] + (join_amp(parts.drop_first()) + seq!['&'] + p) =~= (parts[0]
            + seq!['&'] + join_amp(parts.drop_first())) + seq!['&'] + p);
    }
}

/// The whole query string of a filter.
pub open spec fn query_of_filter(f: FilterData) -> Seq<char> {
    join_amp(all_pairs(f))
}

fn push_list_pairs(parts: &mut Vec<String>, key: &str, vals: &Vec<String>)
    ensures
        final(parts).deep_view() =~= old(parts).deep_view() + pairs_of_list(
            key@,
            vals.deep_view(),
        ),
{
    let ghost base = parts.deep_view();
    let ghost model = vals.deep_view();
    let mut i: usize = 0;
    while i < vals.len()
        invariant
            model == vals.deep_view(),
            base == old(parts).deep_view(),
            i <= vals.len(),
            parts.deep_view() =~= base + pairs_of_list(key@, model).take(i as int),
        decreases vals.len() - i,
    {
        let mut p = String::from_str(key);
        p.append("=");
        let ev = encode_value(vals[i].as_str());
        p.append(ev.as_str());
        proof {
            assert(p@ =~= pair_text(key@, model[i as int]));
        }
        let ghost before = parts.deep_view();
        parts.push(p);
        proof {
            assert(parts.deep_view() =~= before.push(p@));
            assert((base + pairs_of_list(key@, model).take(i as int)).push(p@) =~= base
                + pairs_of_list(key@, model).take(i as int + 1));
        }
        i += 1;
    }
    proof {
        assert(pairs_of_list(key@, model).take(model.len() as int) =~= pairs_of_list(
            key@,
            model,
        ));
    }
}

fn push_state_pairs(parts: &mut Vec<String>, key: &str, vals: &Vec<PowerState>)
    ensures
        final(parts).deep_view() =~= old(parts).deep_view() + pairs_of_states(key@, vals@),
{
    let ghost base = parts.deep_view();
    let ghost model = vals@;
    let mut i: usize = 0;
    while i < vals.len()
        invariant
            model == vals@,
            base == old(parts).deep_view(),
            i <= vals.len(),
            parts.deep_view() =~= base + pairs_of_states(key@, model).take(i as int),
        decreases vals.len() - i,
    {
        let mut p = String::from_str(key);
        p.append("=");
        let ev = encode_value(vals[i].wire_name());
        p.append(ev.as_str());
        proof {
            assert(p@ =~= pair_text(key@, model[i as int].spec_wire_name()));
        }
        let ghost before = parts.deep_view();
        parts.push(p);
        proof {
            assert(parts.deep_view() =~= before.push(p@));
            assert((base + pairs_of_states(key@, model).take(i as int)).push(p@) =~= base
                + pairs_of_states(key@, model).take(i as int + 1));
        }
        i += 1;
    }
    proof {
        assert(pairs_of_states(key@, model).take(model.len() as int) =~= pairs_of_states(
            key@,
            model,
        ));
    }
}

fn join_parts(parts: &Vec<String>) -> (r: String)
    ensures
        r@ == join_amp(parts.deep_view()),
{
    let ghost model = parts.deep_view();
    let mut out = String::new();
    let mut i: usize = 0;
    proof {
        reveal_strlit("&");
        assert("&"@ =~= seq!['&']);
        assert(model.take(0) =~= Seq::<Seq<char>>::empty());
        assert(out@ =~= join_amp(model.take(0)));
    }
    while i < parts.len()
        invariant
            model == parts.deep_view(),
            i <= parts.len(),
            out@ == join_amp(model.take(i as int)),
        decreases parts.len() - i,
    {
        proof {
            reveal_strlit("&");
            assert("&"@ =~= seq!['&']);
            assert(model.take(i as int).push(model[i as int]) =~= model.take(i as int + 1));
            lemma_join_amp_snoc(model.take(i as int), model[i as int]);
        }
        if i > 0 {
            out.append("&");
            proof {
                assert(out@ =~= join_amp(model.take(i as int)) + seq!['&']);
            }
        }
        out.append(parts[i].as_str());
        proof {
            if i == 0 {
                assert(model.take(0).len() == 0);
                assert(out@ =~= model[0]);
            } else {
                assert(out@ =~= (join_amp(model.take(i as int)) + seq!['&']) + model[i as int]);
                assert((join_amp(model.take(i as int)) + seq!['&']) + model[i as int] =~= join_amp(
                    model.take(i as int),
                ) + seq!['&'] + model[i as int]);
            }
        }
        i += 1;
    }
    proof {
        assert(model.take(parts@.len() as int) =~= model);
    }
    out
}

/// Serialize a filter into its query string.
pub fn encode_filter(f: &VMListFilter) -> (r: String)
    ensures
        r@ == query_of_filter(f@),
{
    let mut parts: Vec<String> = Vec::new();
    proof {
        assert(parts.deep_view() =~= Seq::<Seq<char>>::empty());
    }
    match &f.clusters {
        Some(v) => push_list_pairs(&mut parts, "clusters", v),
        None => {},
    }
    proof {
        assert(parts.deep_view() =~= opt_pairs("clusters"@, f@.clusters));
    }
    match &f.datacenters {
        Some(v) => push_list_pairs(&mut parts, "datacenters", v),
        None => {},
    }
    match &f.folders {
        Some(v) => push_list_pairs(&mut parts, "folders", v),
        None => {},
    }
    match &f.hosts {
        Some(v) => push_list_pairs(&mut parts, "hosts", v),
        None => {},
    }
    match &f.names {
        Some(v) => push_list_pairs(&mut parts, "names", v),
        None => {},
    }
    match &f.power_states {
        Some(v) => push_state_pairs(&mut parts, "power_states", v),
        None => {},
    }
    match &f.resource_pools {
        Some(v) => push_list_pairs(&mut parts, "resource_pools", v),
        None => {},
    }
    match &f.vms {
        Some(v) => push_list_pairs(&mut parts, "vms", v),
        None => {},
    }
    proof {
        assert(parts.deep_view() =~= all_pairs(f@));
    }
    join_parts(&parts)
}

/// The inventory listing endpoint without constraints.
pub open spec fn spec_list_all_url(base: Seq<char>) -> Seq<char> {
    base + "/api/vcenter/vm"@
}

pub fn list_all_url(base: &str) -> (r: String)
    ensures
        r@ == spec_list_all_url(base@),
{
    let mut out = String::from_str(base);
    out.append("/api/vcenter/vm");
    out
}

/// The inventory listing endpoint under a filter: the query string is
/// appended after `?`, or nothing at all when the filter contributes no
/// parameter.
pub open spec fn spec_list_url(base: Seq<char>, f: FilterData) -> Seq<char> {
    if query_of_filter(f).len() == 0 {
        spec_list_all_url(base)
    } else {
        spec_list_all_url(base) + "?"@ + query_of_filter(f)
    }
}

pub fn list_url(base: &str, f: &VMListFilter) -> (r: String)
    ensures
        r@ == spec_list_url(base@, f@),
{
    let q = encode_filter(f);
    let mut out = list_all_url(base);
    if q.as_str().unicode_len() == 0 {
        proof {
            assert(query_of_filter(f@).len() == 0);
        }
        return out;
    }
    out.append("?");
    out.append(q.as_str());
    proof {
        assert(out@ =~= spec_list_all_url(base@) + "?"@ + query_of_filter(f@));
    }
    out
}

/// A filter with every field absent lists exactly what the unconstrained
/// listing lists: it contributes no parameter, so the request URL — and
/// with it the whole exchange and its decoding — is the same.
pub proof fn lemma_empty_filter_lists_all(base: Seq<char>)
    ensures
        query_of_filter(FilterData::unconstrained()).len() == 0,
        spec_list_url(base, FilterData::unconstrained()) == spec_list_all_url(base),
{
    assert(all_pairs(FilterData::unconstrained()) =~= Seq::<Seq<char>>::empty());
}

/// The guest power-action endpoint for one VM, or the power-on endpoint for
/// `Start`: the `action` parameter carries the action's wire name.
pub open spec fn spec_power_action_url(base: Seq<char>, vm: Seq<char>, action: PowerAction) -> Seq<
    char,
> {
    match action {
        PowerAction::Start => base + "/api/vcenter/vm/"@ + vm + "/power?action="@
            + action.spec_wire_name(),
        _ => base + "/api/vcenter/vm/"@ + vm + "/guest/power?action="@ + action.spec_wire_name(),
    }
}

pub fn power_action_url(base: &str, vm: &str, action: PowerAction) -> (r: String)
    ensures
        r@ == spec_power_action_url(base@, vm@, action),
{
    let mut out = String::from_str(base);
    out.append("/api/vcenter/vm/");
    out.append(vm);
    match action {
        PowerAction::Start => out.append("/power?action="),
        _ => out.append("/guest/power?action="),
    }
    out.append(action.wire_name());
    proof {
        assert(out@ =~= spec_power_action_url(base@, vm@, action));
    }
    out
}

} // verus!
