//! The `check` subcommand's findings and their JSON shape.

use vstd::prelude::*;
use crate::diagnostics::{
    json_quoted, location_json, location_view, push_location_json, SourceLocation,
};
use crate::text::{join_with, push_str_chars, str_chars, string_from_chars};

verus! {

/// One static-analysis finding. `severity` "error" means the file can't (or
/// almost certainly won't) run correctly; "info" is a heads-up that doesn't
/// mean anything is broken.
pub struct Diagnostic {
    pub severity: &'static str,
    pub code: &'static str,
    pub kind: &'static str,
    pub message: String,
    pub location: Option<SourceLocation>,
}

/// No finding has severity `error`.
pub open spec fn spec_all_ok(diags: Seq<Diagnostic>) -> bool {
    forall|i: int| 0 <= i < diags.len() ==> (#[trigger] diags[i]).severity@ != "error"@
}

/// Is no finding an error?
pub fn all_ok(diags: &[Diagnostic]) -> (r: bool)
    ensures
        r == spec_all_ok(diags@),
{
    let err = str_chars("error");
    let mut i: usize = 0;
    while i < diags.len()
        invariant
            0 <= i <= diags@.len(),
            err@ == "error"@,
            forall|k: int| 0 <= k < i ==> (#[trigger] diags@[k]).severity@ != "error"@,
        decreases diags@.len() - i,
    {
        let sev = str_chars(diags[i].severity);
        if crate::text::chars_eq(&sev, &err) {
            return false;
        }
        i = i + 1;
    }
    true
}

/// `{"severity":...,"code":...,"kind":...,"message":...,"location":...}`.
pub open spec fn diagnostic_json(d: Diagnostic) -> Seq<char> {
    "{\"severity\":"@ + json_quoted(d.severity@) + ",\"code\":"@ + json_quoted(d.code@)
        + ",\"kind\":"@ + json_quoted(d.kind@) + ",\"message\":"@ + json_quoted(d.message@)
        + ",\"location\":"@ + location_json(location_view(d.location)) + "}"@
}

/// `{"schema_version":1,"ok":...,"diagnostics":[...]}`.
pub open spec fn spec_diagnostics_json(diags: Seq<Diagnostic>) -> Seq<char> {
    "{\"schema_version\":1,\"ok\":"@ + (if spec_all_ok(diags) {
        "true"@
    } else {
        "false"@
    }) + ",\"diagnostics\":["@ + join_with(diags.map_values(|d: Diagnostic| diagnostic_json(d)), ',')
        + "]}"@
}

fn push_quoted_str(out: &mut Vec<char>, s: &str)
    ensures
        final(out)@ == old(out)@ + json_quoted(s@),
{
    let c = str_chars(s);
    crate::diagnostics::push_quoted_chars(out, &c);
}

fn push_diagnostic_json(out: &mut Vec<char>, d: &Diagnostic)
    ensures
        final(out)@ == old(out)@ + diagnostic_json(*d),
{
    let ghost before = out@;
    push_str_chars(out, "{\"severity\":");
    push_quoted_str(out, d.severity);
    push_str_chars(out, ",\"code\":");
    push_quoted_str(out, d.code);
    push_str_chars(out, ",\"kind\":");
    push_quoted_str(out, d.kind);
    push_str_chars(out, ",\"message\":");
    push_quoted_str(out, d.message.as_str());
    push_str_chars(out, ",\"location\":");
    push_location_json(out, &d.location);
    push_str_chars(out, "}");
    proof {
        assert(out@ =~= before + diagnostic_json(*d));
    }
}

/// The `check` subcommand's JSON shape: whether every finding is below
/// error severity, and each finding.
pub fn diagnostics_to_json(diags: &[Diagnostic]) -> (r: String)
    ensures
        r@ == spec_diagnostics_json(diags@),
{
    let ok = all_ok(diags);
    let ghost js = diags@.map_values(|d: Diagnostic| diagnostic_json(d));
    let mut out: Vec<char> = Vec::new();
    push_str_chars(&mut out, "{\"schema_version\":1,\"ok\":");
    if ok {
        push_str_chars(&mut out, "true");
    } else {
        push_str_chars(&mut out, "false");
    }
    push_str_chars(&mut out, ",\"diagnostics\":[");
    let ghost head = out@;
    let mut i: usize = 0;
    proof {
        assert(js.subrange(0, 0) =~= Seq::<Seq<char>>::empty());
        assert(out@ =~= head + join_with(js.subrange(0, 0), ','));
    }
    while i < diags.len()
        invariant
            0 <= i <= diags@.len(),
            js == diags@.map_values(|d: Diagnostic| diagnostic_json(d)),
            js.len() == diags@.len(),
            out@ == head + join_with(js.subrange(0, i as int), ','),
        decreases diags@.len() - i,
    {
        let ghost pre = js.subrange(0, i + 1);
        proof {
            assert(pre.drop_last() =~= js.subrange(0, i as int));
            assert(pre.last() == diagnostic_json(diags@[i as int]));
        }
        if i > 0 {
            out.push(',');
        }
        push_diagnostic_json(&mut out, &diags[i]);
        proof {
            if i == 0 {
                assert(pre.len() == 1);
                assert(out@ =~= head + pre[0]);
            } else {
                assert(out@ =~= head + (join_with(pre.drop_last(), ',') + seq![','] + pre.last()));
            }
        }
        i = i + 1;
    }
    push_str_chars(&mut out, "]}");
    proof {
        assert(js.subrange(0, js.len() as int) =~= js);
        assert(out@ =~= spec_diagnostics_json(diags@));
    }
    string_from_chars(&out)
}

} // verus!
