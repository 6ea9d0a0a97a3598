//! Rendering of a generated-case workbook test run enriched with the
//! diagnosis of its failure: the run's outcome as JSON (with the root causes
//! of a classified failure) and as plain text.

use vstd::prelude::*;
use crate::diagnose::{
    join_seq, kind_code, kind_wf, observations_field_text, root_causes_json,
    root_causes_text, HiddenCellsObservation, ResolutionFailureKind,
};
use crate::diagnostics::{json_quoted, push_quoted_chars};
use crate::text::{decimal, fmt_u64, push_all, push_str_chars, string_chars, string_from_chars};

verus! {

/// One drawn input of a failing case: the cell it was written to and the
/// value written, as its JSON text.
pub struct InputUsed {
    pub address: String,
    pub value_json: String,
}

/// The rule a failing case broke, and what it observed.
pub struct FailureDetail {
    pub rule: String,
    pub address: Option<String>,
    pub actual: Option<String>,
    pub message: Option<String>,
}

/// The outcome of a generated-case run: every case passed, or the first
/// failing case with its inputs, its failure, the classified failure kind
/// when there is one, and any hidden-cells observation.
pub enum FixtureResult {
    Passed { seed: u64, cases_run: u64, hidden_cells: Option<Box<HiddenCellsObservation>> },
    Failed {
        seed: u64,
        case_index: u64,
        inputs_used: Vec<InputUsed>,
        failure: FailureDetail,
        resolution_kind: Option<Box<ResolutionFailureKind>>,
        hidden_cells: Option<Box<HiddenCellsObservation>>,
    },
}

pub open spec fn unbox_obs(o: Option<Box<HiddenCellsObservation>>) -> Option<HiddenCellsObservation> {
    match o {
        Some(b) => Some(*b),
        None => None,
    }
}

pub open spec fn unbox_kind(k: Option<Box<ResolutionFailureKind>>) -> Option<ResolutionFailureKind> {
    match k {
        Some(b) => Some(*b),
        None => None,
    }
}

/// `{"address":...,"value":...}` for one input.
pub open spec fn input_json_text(iu: InputUsed) -> Seq<char> {
    "{\"address\":"@ + json_quoted(iu.address@) + ",\"value\":"@ + iu.value_json@ + "}"@
}

pub open spec fn inputs_texts(ins: Seq<InputUsed>) -> Seq<Seq<char>> {
    ins.map_values(|iu: InputUsed| input_json_text(iu))
}

pub open spec fn opt_field(key: Seq<char>, v: Option<String>) -> Seq<Seq<char>> {
    match v {
        Some(x) => seq![key + json_quoted(x@)],
        None => Seq::empty(),
    }
}

/// The fields of the `failure` object: the rule, then address, actual and
/// message when present.
pub open spec fn failure_fields(f: FailureDetail) -> Seq<Seq<char>> {
    seq!["\"rule\":"@ + json_quoted(f.rule@)] + opt_field("\"address\":"@, f.address) + opt_field(
        "\"actual\":"@,
        f.actual,
    ) + opt_field("\"message\":"@, f.message)
}

/// The run as JSON: seed and case count on success; seed, case index,
/// inputs, failure and root causes on failure; observations when present.
pub open spec fn fixture_json_text(r: FixtureResult) -> Seq<char> {
    match r {
        FixtureResult::Passed { seed, cases_run, hidden_cells } => "{\"schema_version\":1,\"ok\":true,\"seed\":"@
            + decimal(seed as nat) + ",\"cases_run\":"@ + decimal(cases_run as nat) + observations_field_text(
            unbox_obs(hidden_cells),
        ) + "}"@,
        FixtureResult::Failed { seed, case_index, inputs_used, failure, resolution_kind, hidden_cells } =>
            failed_head_text(seed, case_index, inputs_used@, failure) + "},\"root_causes\":"@ + root_causes_text(
            unbox_kind(resolution_kind),
        ) + observations_field_text(unbox_obs(hidden_cells)) + "}"@,
    }
}

/// A failing run's JSON up to its failure fields.
pub open spec fn failed_head_text(seed: u64, case_index: u64, inputs: Seq<InputUsed>, failure: FailureDetail) -> Seq<char> {
    "{\"schema_version\":1,\"ok\":false,\"seed\":"@ + decimal(seed as nat) + ",\"case_index\":"@ + decimal(
        case_index as nat,
    ) + ",\"inputs\":["@ + join_seq(inputs_texts(inputs), ","@) + "],\"failure\":{"@ + join_seq(
        failure_fields(failure),
        ","@,
    )
}

/// The observation line of the plain-text summary.
pub open spec fn observation_line(obs: Option<HiddenCellsObservation>) -> Seq<char> {
    match obs {
        Some(o) => "\n  observation: RANGE_CONTAINS_HIDDEN_CELLS ("@ + decimal(o.visible_cells as nat) + " of "@
            + decimal(o.total_cells as nat) + " cells visible in "@ + o.address@ + ")"@,
        None => Seq::empty(),
    }
}

pub open spec fn opt_suffix(prefix: Seq<char>, v: Option<String>) -> Seq<char> {
    match v {
        Some(x) => prefix + x@,
        None => Seq::empty(),
    }
}

/// The run as plain text: the pass line or the failing case's rule line, a
/// `root cause:` line when classified, and the observation line.
pub open spec fn fixture_plain_text(r: FixtureResult) -> Seq<char> {
    match r {
        FixtureResult::Passed { seed, cases_run, hidden_cells } => "ok: "@ + decimal(cases_run as nat)
            + " case(s) passed (seed "@ + decimal(seed as nat) + ")"@ + observation_line(unbox_obs(hidden_cells)),
        FixtureResult::Failed { seed, case_index, failure, resolution_kind, hidden_cells, .. } => "FAIL: case "@
            + decimal(case_index as nat) + " (seed "@ + decimal(seed as nat) + ") - "@ + failure.rule@
            + opt_suffix(" at "@, failure.address) + opt_suffix(": "@, failure.actual) + opt_suffix(
            ": "@,
            failure.message,
        ) + match unbox_kind(resolution_kind) {
            Some(k) => "\n  root cause: "@ + kind_code(k),
            None => Seq::empty(),
        } + observation_line(unbox_obs(hidden_cells)),
    }
}

/// The failure kind of a run renders.
pub open spec fn fixture_wf(r: FixtureResult) -> bool {
    match r {
        FixtureResult::Failed { resolution_kind, .. } => unbox_kind(resolution_kind) matches Some(k) ==> kind_wf(k),
        _ => true,
    }
}

fn push_joined_items(out: &mut Vec<char>, items: &Vec<Vec<char>>)
    ensures
        final(out)@ == old(out)@ + join_seq(items@.map_values(|v: Vec<char>| v@), ","@),
{
    let ghost before = out@;
    let ghost iv = items@.map_values(|v: Vec<char>| v@);
    let mut i: usize = 0;
    proof {
        assert(iv.subrange(0, 0) =~= Seq::<Seq<char>>::empty());
        assert(out@ =~= before + join_seq(iv.subrange(0, 0), ","@));
    }
    while i < items.len()
        invariant
            0 <= i <= items@.len(),
            iv == items@.map_values(|v: Vec<char>| v@),
            iv.len() == items@.len(),
            out@ == before + join_seq(iv.subrange(0, i as int), ","@),
        decreases items@.len() - i,
    {
        let ghost pre = iv.subrange(0, i + 1);
        proof {
            assert(pre.drop_last() =~= iv.subrange(0, i as int));
            assert(pre.last() == items@[i as int]@);
        }
        if i > 0 {
            push_str_chars(out, ",");
        }
        push_all(out, &items[i]);
        proof {
            if i == 0 {
                assert(pre.len() == 1);
                assert(out@ =~= before + pre[0]);
            } else {
                assert(out@ =~= before + (join_seq(pre.drop_last(), ","@) + ","@ + pre.last()));
            }
        }
        i = i + 1;
    }
    proof {
        assert(iv.subrange(0, iv.len() as int) =~= iv);
    }
}

fn input_items(ins: &Vec<InputUsed>) -> (r: Vec<Vec<char>>)
    ensures
        r@.map_values(|v: Vec<char>| v@) == inputs_texts(ins@),
{
    let mut items: Vec<Vec<char>> = Vec::new();
    let mut i: usize = 0;
    while i < ins.len()
        invariant
            0 <= i <= ins@.len(),
            items@.map_values(|v: Vec<char>| v@) == inputs_texts(ins@.subrange(0, i as int)),
        decreases ins@.len() - i,
    {
        let ghost prev = items@.map_values(|v: Vec<char>| v@);
        let mut item: Vec<char> = Vec::new();
        push_str_chars(&mut item, "{\"address\":");
        push_quoted_chars(&mut item, &string_chars(&ins[i].address));
        push_str_chars(&mut item, ",\"value\":");
        push_all(&mut item, &string_chars(&ins[i].value_json));
        push_str_chars(&mut item, "}");
        proof {
            assert(item@ =~= input_json_text(ins@[i as int]));
        }
        items.push(item);
        proof {
            assert(items@.map_values(|v: Vec<char>| v@) =~= prev.push(input_json_text(ins@[i as int])));
            assert(inputs_texts(ins@.subrange(0, i + 1)) =~= inputs_texts(ins@.subrange(0, i as int)).push(
                input_json_text(ins@[i as int]),
            ));
        }
        i = i + 1;
    }
    proof {
        assert(ins@.subrange(0, ins@.len() as int) =~= ins@);
    }
    items
}

fn quoted_field(key: &str, v: &String) -> (r: Vec<char>)
    ensures
        r@ == key@ + json_quoted(v@),
{
    let mut item: Vec<char> = Vec::new();
    push_str_chars(&mut item, key);
    push_quoted_chars(&mut item, &string_chars(v));
    proof {
        assert(item@ =~= key@ + json_quoted(v@));
    }
    item
}

fn push_opt_field(items: &mut Vec<Vec<char>>, key: &str, v: &Option<String>)
    ensures
        final(items)@.map_values(|x: Vec<char>| x@) == old(items)@.map_values(|x: Vec<char>| x@) + opt_field(
            key@,
            *v,
        ),
{
    let ghost prev = items@.map_values(|x: Vec<char>| x@);
    match v {
        Some(x) => {
            items.push(quoted_field(key, x));
            proof {
                assert(items@.map_values(|x: Vec<char>| x@) =~= prev + opt_field(key@, *v));
            }
        },
        None => {
            proof {
                assert(items@.map_values(|x: Vec<char>| x@) =~= prev + opt_field(key@, *v));
            }
        },
    }
}

fn failure_items(f: &FailureDetail) -> (r: Vec<Vec<char>>)
    ensures
        r@.map_values(|v: Vec<char>| v@) == failure_fields(*f),
{
    let mut items: Vec<Vec<char>> = Vec::new();
    items.push(quoted_field("\"rule\":", &f.rule));
    proof {
        assert(items@.map_values(|v: Vec<char>| v@) =~= seq!["\"rule\":"@ + json_quoted(f.rule@)]);
    }
    push_opt_field(&mut items, "\"address\":", &f.address);
    push_opt_field(&mut items, "\"actual\":", &f.actual);
    push_opt_field(&mut items, "\"message\":", &f.message);
    items
}

fn push_observations_field(out: &mut Vec<char>, obs: &Option<Box<HiddenCellsObservation>>)
    ensures
        final(out)@ == old(out)@ + observations_field_text(unbox_obs(*obs)),
{
    let ghost before = out@;
    match obs {
        Some(o) => {
            push_str_chars(out, ",\"observations\":");
            let j = crate::diagnose::observations_json(Some(&**o));
            push_all(out, &string_chars(&j));
            proof {
                assert(out@ =~= before + observations_field_text(unbox_obs(*obs)));
            }
        },
        None => {
            proof {
                assert(out@ =~= before + observations_field_text(unbox_obs(*obs)));
            }
        },
    }
}

fn push_failed_head(out: &mut Vec<char>, seed: u64, case_index: u64, inputs_used: &Vec<InputUsed>, failure: &FailureDetail)
    ensures
        final(out)@ == old(out)@ + failed_head_text(seed, case_index, inputs_used@, *failure),
{
    let ghost before = out@;
    push_str_chars(out, "{\"schema_version\":1,\"ok\":false,\"seed\":");
    push_all(out, &fmt_u64(seed));
    push_str_chars(out, ",\"case_index\":");
    push_all(out, &fmt_u64(case_index));
    push_str_chars(out, ",\"inputs\":[");
    push_joined_items(out, &input_items(inputs_used));
    push_str_chars(out, "],\"failure\":{");
    push_joined_items(out, &failure_items(failure));
    proof {
        assert(out@ =~= before + failed_head_text(seed, case_index, inputs_used@, *failure));
    }
}

fn push_failed_json(out: &mut Vec<char>, r: &FixtureResult)
    requires
        r is Failed,
        fixture_wf(*r),
    ensures
        final(out)@ == old(out)@ + fixture_json_text(*r),
{
    let ghost before = out@;
    match r {
        FixtureResult::Failed { seed, case_index, inputs_used, failure, resolution_kind, hidden_cells } => {
            push_failed_head(out, *seed, *case_index, inputs_used, failure);
            push_str_chars(out, "},\"root_causes\":");
            let rc = match resolution_kind {
                Some(k) => root_causes_json(Some(&**k)),
                None => root_causes_json(None),
            };
            push_all(out, &string_chars(&rc));
            push_observations_field(out, hidden_cells);
            push_str_chars(out, "}");
            proof {
                assert(out@ =~= before + fixture_json_text(*r));
            }
        },
        _ => {},
    }
}

/// The run as its JSON object.
pub fn to_json(result: &FixtureResult) -> (r: String)
    requires
        fixture_wf(*result),
    ensures
        r@ == fixture_json_text(*result),
{
    let mut out: Vec<char> = Vec::new();
    match result {
        FixtureResult::Passed { seed, cases_run, hidden_cells } => {
            push_str_chars(&mut out, "{\"schema_version\":1,\"ok\":true,\"seed\":");
            push_all(&mut out, &fmt_u64(*seed));
            push_str_chars(&mut out, ",\"cases_run\":");
            push_all(&mut out, &fmt_u64(*cases_run));
            push_observations_field(&mut out, hidden_cells);
            push_str_chars(&mut out, "}");
            proof {
                assert(out@ =~= fixture_json_text(*result));
            }
        },
        FixtureResult::Failed { .. } => push_failed_json(&mut out, result),
    }
    string_from_chars(&out)
}

fn push_observation_line(out: &mut Vec<char>, obs: &Option<Box<HiddenCellsObservation>>)
    ensures
        final(out)@ == old(out)@ + observation_line(unbox_obs(*obs)),
{
    let ghost before = out@;
    match obs {
        Some(o) => {
            push_str_chars(out, "\n  observation: RANGE_CONTAINS_HIDDEN_CELLS (");
            push_all(out, &fmt_u64(o.visible_cells));
            push_str_chars(out, " of ");
            push_all(out, &fmt_u64(o.total_cells));
            push_str_chars(out, " cells visible in ");
            push_all(out, &string_chars(&o.address));
            push_str_chars(out, ")");
        },
        None => {},
    }
    proof {
        assert(out@ =~= before + observation_line(unbox_obs(*obs)));
    }
}

fn push_opt_suffix(out: &mut Vec<char>, prefix: &str, v: &Option<String>)
    ensures
        final(out)@ == old(out)@ + opt_suffix(prefix@, *v),
{
    let ghost before = out@;
    match v {
        Some(x) => {
            push_str_chars(out, prefix);
            push_all(out, &string_chars(x));
        },
        None => {},
    }
    proof {
        assert(out@ =~= before + opt_suffix(prefix@, *v));
    }
}

fn push_failed_plain(out: &mut Vec<char>, r: &FixtureResult)
    requires
        r is Failed,
    ensures
        final(out)@ == old(out)@ + fixture_plain_text(*r),
{
    let ghost before = out@;
    match r {
        FixtureResult::Failed { seed, case_index, failure, resolution_kind, hidden_cells, .. } => {
            push_str_chars(out, "FAIL: case ");
            push_all(out, &fmt_u64(*case_index));
            push_str_chars(out, " (seed ");
            push_all(out, &fmt_u64(*seed));
            push_str_chars(out, ") - ");
            push_all(out, &string_chars(&failure.rule));
            push_opt_suffix(out, " at ", &failure.address);
            push_opt_suffix(out, ": ", &failure.actual);
            push_opt_suffix(out, ": ", &failure.message);
            match resolution_kind {
                Some(k) => {
                    push_str_chars(out, "\n  root cause: ");
                    let rc = crate::diagnose::root_cause_code(&**k);
                    push_str_chars(out, rc);
                },
                None => {},
            }
            push_observation_line(out, hidden_cells);
            proof {
                assert(out@ =~= before + fixture_plain_text(*r));
            }
        },
        _ => {},
    }
}

/// The run as a plain-text summary.
pub fn to_plain_text(result: &FixtureResult) -> (r: String)
    ensures
        r@ == fixture_plain_text(*result),
{
    let mut out: Vec<char> = Vec::new();
    match result {
        FixtureResult::Passed { seed, cases_run, hidden_cells } => {
            push_str_chars(&mut out, "ok: ");
            push_all(&mut out, &fmt_u64(*cases_run));
            push_str_chars(&mut out, " case(s) passed (seed ");
            push_all(&mut out, &fmt_u64(*seed));
            push_str_chars(&mut out, ")");
            push_observation_line(&mut out, hidden_cells);
            proof {
                assert(out@ =~= fixture_plain_text(*result));
            }
        },
        FixtureResult::Failed { .. } => push_failed_plain(&mut out, result),
    }
    string_from_chars(&out)
}

} // verus!
