//! Decoding an inventory listing response into `VMSummary` records. The
//! response must be a JSON array of flat objects; each object must carry
//! the `vm`, `name` and `power_state` fields, tolerates absent or null
//! `cpu_count` and `memory_size_mib`, and may carry unknown scalar fields,
//! which are ignored.
use vstd::prelude::*;

use crate::json::{
    spec_obj_lookup, spec_parse_array, spec_skip_ws, obj_lookup, parse_array, str_eq, Scalar,
    ScalarData,
};
use crate::types::{PowerState, QueryError, VMData, VMSummary};

verus! {

/// The power state a wire name stands for, if any.
pub open spec fn spec_state_of_name(name: Seq<char>) -> Option<PowerState> {
    if name == "POWERED_OFF"@ {
        Some(PowerState::PoweredOff)
    } else if name == "POWERED_ON"@ {
        Some(PowerState::PoweredOn)
    } else if name == "SUSPENDED"@ {
        Some(PowerState::Suspended)
    } else {
        None
    }
}

pub fn state_of_name(name: &str) -> (r: Option<PowerState>)
    ensures
        r == spec_state_of_name(name@),
{
    if str_eq(name, "POWERED_OFF") {
        Some(PowerState::PoweredOff)
    } else if str_eq(name, "POWERED_ON") {
        Some(PowerState::PoweredOn)
    } else if str_eq(name, "SUSPENDED") {
        Some(PowerState::Suspended)
    } else {
        None
    }
}

/// An optional integer field: absent or null means "not reported"; an
/// integer is taken as-is; any other shape is a decode error.
pub open spec fn spec_opt_int(v: Option<ScalarData>) -> Option<Option<int>> {
    match v {
        None => Some(None),
        Some(ScalarData::Null) => Some(None),
        Some(ScalarData::Int(n)) => Some(Some(n as int)),
        Some(_) => None,
    }
}

/// The `VMSummary` a decoded object stands for: `vm`, `name` and
/// `power_state` are required, the power state must bear a known wire name,
/// and the two capacity fields are optional.
pub open spec fn spec_vm_of_obj(obj: Seq<(Seq<char>, ScalarData)>) -> Option<VMData> {
    match spec_obj_lookup(obj, "vm"@) {
        Some(ScalarData::Str(id)) => match spec_obj_lookup(obj, "name"@) {
            Some(ScalarData::Str(name)) => match spec_obj_lookup(obj, "power_state"@) {
                Some(ScalarData::Str(ps)) => match spec_state_of_name(ps) {
                    Some(state) => match spec_opt_int(spec_obj_lookup(obj, "cpu_count"@)) {
                        Some(cpu) => match spec_opt_int(
                            spec_obj_lookup(obj, "memory_size_mib"@),
                        ) {
                            Some(mem) => Some(
                                VMData {
                                    id: id,
                                    name: name,
                                    power_state: state,
                                    cpu_count: cpu,
                                    memory_size_mib: mem,
                                },
                            ),
                            None => None,
                        },
                        None => None,
                    },
                    None => None,
                },
                _ => None,
            },
            _ => None,
        },
        _ => None,
    }
}

fn opt_int_field(obj: &Vec<(String, Scalar)>, key: &str) -> (r: Option<Option<i64>>)
    ensures
        match r {
            Some(v) => spec_opt_int(spec_obj_lookup(obj.deep_view(), key@)) == Some(
                match v {
                    Some(n) => Some(n as int),
                    None => None,
                },
            ),
            None => spec_opt_int(spec_obj_lookup(obj.deep_view(), key@)) is None,
        },
{
    match obj_lookup(obj, key) {
        None => Some(None),
        Some(s) => match s {
            Scalar::Null => Some(None),
            Scalar::Int(n) => Some(Some(*n)),
            _ => None,
        },
    }
}

fn vm_of_obj(obj: &Vec<(String, Scalar)>) -> (r: Option<VMSummary>)
    ensures
        match r {
            Some(vm) => spec_vm_of_obj(obj.deep_view()) == Some(vm@),
            None => spec_vm_of_obj(obj.deep_view()) is None,
        },
{
    let id: String = match obj_lookup(obj, "vm") {
        Some(Scalar::Str(s)) => s.clone(),
        _ => {
            return None;
        },
    };
    let name: String = match obj_lookup(obj, "name") {
        Some(Scalar::Str(s)) => s.clone(),
        _ => {
            return None;
        },
    };
    let state: PowerState = match obj_lookup(obj, "power_state") {
        Some(Scalar::Str(s)) => match state_of_name(s.as_str()) {
            Some(st) => st,
            None => {
                return None;
            },
        },
        _ => {
            return None;
        },
    };
    let cpu: Option<i64> = match opt_int_field(obj, "cpu_count") {
        Some(v) => v,
        None => {
            return None;
        },
    };
    let mem: Option<i64> = match opt_int_field(obj, "memory_size_mib") {
        Some(v) => v,
        None => {
            return None;
        },
    };
    Some(VMSummary { id, name, power_state: state, cpu_count: cpu, memory_size_mib: mem })
}

/// The records a sequence of decoded objects stands for; any object of an
/// unexpected shape poisons the whole listing.
pub open spec fn spec_vms_of_objs(objs: Seq<Seq<(Seq<char>, ScalarData)>>) -> Option<Seq<VMData>>
    decreases objs.len(),
{
    if objs.len() == 0 {
        Some(Seq::empty())
    } else {
        match spec_vm_of_obj(objs[0]) {
            None => None,
            Some(v) => match spec_vms_of_objs(objs.drop_first()) {
                None => None,
                Some(rest) => Some(seq![v] + rest),
            },
        }
    }
}

proof fn lemma_vms_of_objs_snoc(objs: Seq<Seq<(Seq<char>, ScalarData)>>, x: Seq<(Seq<char>, ScalarData)>)
    ensures
        spec_vms_of_objs(objs.push(x)) == (match (spec_vms_of_objs(objs), spec_vm_of_obj(x)) {
            (Some(vs), Some(v)) => Some(vs.push(v)),
            _ => None::<Seq<VMData>>,
        }),
    decreases objs.len(),
{
    let all = objs.push(x);
    if objs.len() == 0 {
        assert(all[0] == x);
        assert(all.drop_first() =~= Seq::<Seq<(Seq<char>, ScalarData)>>::empty());
        match spec_vm_of_obj(x) {
            None => {},
            Some(v) => {
                assert(spec_vms_of_objs(all.drop_first()) == Some(Seq::<VMData>::empty()));
                assert(seq![v] + Seq::<VMData>::empty() =~= Seq::<VMData>::empty().push(v));
            },
        }
    } else {
        assert(all[0] == objs[0]);
        assert(all.drop_first() =~= objs.drop_first().push(x));
        lemma_vms_of_objs_snoc(objs.drop_first(), x);
        match spec_vm_of_obj(objs[0]) {
            None => {},
            Some(v0) => {
                match (spec_vms_of_objs(objs.drop_first()), spec_vm_of_obj(x)) {
                    (Some(rest), Some(v)) => {
                        assert(seq![v0] + rest.push(v) =~= (seq![v0] + rest).push(v));
                    },
                    _ => {},
                }
            },
        }
    }
}

/// The inventory a whole response body stands for: one array of objects,
/// surrounded only by whitespace, every object a well-shaped summary.
pub open spec fn spec_decode_inventory(s: Seq<char>) -> Option<Seq<VMData>> {
    let i0 = spec_skip_ws(s, 0);
    match spec_parse_array(s, i0) {
        None => None,
        Some((objs, j)) => {
            if spec_skip_ws(s, j) == s.len() {
                spec_vms_of_objs(objs)
            } else {
                None
            }
        },
    }
}

/// Decode an inventory response body. A body that does not match the
/// expected array-of-summaries shape — and nothing else — is a
/// `DecodeFailure`.
pub fn decode_inventory(s: &str) -> (r: Result<Vec<VMSummary>, QueryError>)
    ensures
        match r {
            Ok(vms) => spec_decode_inventory(s@) == Some(vms.deep_view()),
            Err(e) => spec_decode_inventory(s@) is None && e == QueryError::DecodeFailure,
        },
{
    let n = s.unicode_len();
    let i0 = crate::json::skip_ws(s, n, 0);
    let (objs, j) = match parse_array(s, n, i0) {
        Some(p) => p,
        None => {
            return Err(QueryError::DecodeFailure);
        },
    };
    let j2 = crate::json::skip_ws(s, n, j);
    if j2 != n {
        return Err(QueryError::DecodeFailure);
    }
    let ghost model = objs.deep_view();
    let mut out: Vec<VMSummary> = Vec::new();
    let mut i: usize = 0;
    proof {
        assert(model.take(0) =~= Seq::<Seq<(Seq<char>, ScalarData)>>::empty());
        assert(out.deep_view() =~= Seq::<VMData>::empty());
    }
    while i < objs.len()
        invariant
            model == objs.deep_view(),
            i <= objs.len(),
            spec_vms_of_objs(model.take(i as int)) == Some(out.deep_view()),
            spec_decode_inventory(s@) == spec_vms_of_objs(model),
        decreases objs.len() - i,
    {
        proof {
            assert(model[i as int] == objs@[i as int].deep_view());
            assert(model.take(i as int).push(model[i as int]) =~= model.take(i as int + 1));
            lemma_vms_of_objs_snoc(model.take(i as int), model[i as int]);
        }
        match vm_of_obj(&objs[i]) {
            Some(vm) => {
                let ghost before = out.deep_view();
                out.push(vm);
                proof {
                    assert(out.deep_view() =~= before.push(vm@));
                }
            },
            None => {
                proof {
                    lemma_vms_of_objs_prefix_none(model, i as int);
                }
                return Err(QueryError::DecodeFailure);
            },
        }
        i += 1;
    }
    proof {
        assert(model.take(objs.len() as int) =~= model);
    }
    Ok(out)
}

/// An object of unexpected shape anywhere in the listing poisons the whole
/// decoding.
proof fn lemma_vms_of_objs_prefix_none(objs: Seq<Seq<(Seq<char>, ScalarData)>>, i: int)
    requires
        0 <= i < objs.len(),
        spec_vm_of_obj(objs[i]) is None,
    ensures
        spec_vms_of_objs(objs) is None,
    decreases objs.len(),
{
    if objs.len() > 0 {
        if i == 0 {
        } else {
            match spec_vm_of_obj(objs[0]) {
                None => {},
                Some(_) => {
                    assert(objs.drop_first()[i - 1] == objs[i]);
                    lemma_vms_of_objs_prefix_none(objs.drop_first(), i - 1);
                },
            }
        }
    }
}

} // verus!
