use vstd::prelude::*;

use crate::error::BuildError;
use crate::json::{
    field, get_field, get_member, get_object_member, get_str_member, member, object_member,
    str_member, Json,
};

verus! {

/// How severe a diagnostic is.
#[derive(Clone, Copy, Debug, PartialEq, Eq, Structural)]
pub enum Severity {
    Warning,
    Error,
}

/// One diagnostic of the compiler, anchored at a byte range of a file.
pub struct Diagnostic {
    pub severity: Severity,
    pub message: String,
    pub formatted_message: String,
    pub file: String,
    pub start: i64,
    pub end: i64,
}

pub type DiagnosticView = (Severity, Seq<char>, Seq<char>, Seq<char>, i64, i64);

pub open spec fn diagnostic_view(d: Diagnostic) -> DiagnosticView {
    (d.severity, d.message@, d.formatted_message@, d.file@, d.start, d.end)
}

pub open spec fn severity_of(s: Seq<char>) -> Option<Severity> {
    if s == "warning"@ {
        Some(Severity::Warning)
    } else if s == "error"@ {
        Some(Severity::Error)
    } else {
        None
    }
}

pub open spec fn int_member(v: Json, key: Seq<char>) -> Option<i64> {
    match member(v, key) {
        Some(Json::Int(n)) => Some(n),
        _ => None,
    }
}

/// The fields of a well-formed diagnostic entry of the response.
pub open spec fn entry_fields(e: Json) -> Option<DiagnosticView> {
    match str_member(e, "severity"@) {
        None => None,
        Some(sev) => match severity_of(sev) {
            None => None,
            Some(s) => match (
                str_member(e, "message"@),
                str_member(e, "formattedMessage"@),
                member(e, "sourceLocation"@),
            ) {
                (Some(m), Some(f), Some(loc)) => match (
                    str_member(loc, "file"@),
                    int_member(loc, "start"@),
                    int_member(loc, "end"@),
                ) {
                    (Some(file), Some(st), Some(en)) => Some((s, m, f, file, st, en)),
                    _ => None,
                },
                _ => None,
            },
        },
    }
}

/// Why an entry that is not well-formed is refused.
pub open spec fn entry_error(e: Json) -> BuildError {
    if str_member(e, "severity"@) matches Some(s) && severity_of(s) is None {
        BuildError::UnknownSeverity
    } else {
        BuildError::ParseFailure
    }
}

fn get_int_member(v: &Json, key: &String) -> (r: Option<i64>)
    ensures
        r == int_member(*v, key@),
{
    match get_member(v, key) {
        Some(Json::Int(n)) => Some(*n),
        _ => None,
    }
}

fn text(s: &str) -> (r: String)
    ensures
        r@ == s@,
{
    String::from_str(s)
}

/// Reads one diagnostic entry of the response.
pub fn parse_entry(entry: &Json) -> (r: Result<Diagnostic, BuildError>)
    ensures
        match r {
            Ok(d) => entry_fields(*entry) == Some(diagnostic_view(d)),
            Err(e) => entry_fields(*entry) is None && e == entry_error(*entry),
        },
{
    let sev = match get_str_member(entry, &text("severity")) {
        Some(s) => s,
        None => return Err(BuildError::ParseFailure),
    };
    let severity = if *sev == text("warning") {
        Severity::Warning
    } else if *sev == text("error") {
        Severity::Error
    } else {
        return Err(BuildError::UnknownSeverity);
    };
    let message = match get_str_member(entry, &text("message")) {
        Some(s) => s,
        None => return Err(BuildError::ParseFailure),
    };
    let formatted = match get_str_member(entry, &text("formattedMessage")) {
        Some(s) => s,
        None => return Err(BuildError::ParseFailure),
    };
    let loc = match get_member(entry, &text("sourceLocation")) {
        Some(l) => l,
        None => return Err(BuildError::ParseFailure),
    };
    let file = match get_str_member(loc, &text("file")) {
        Some(s) => s,
        None => return Err(BuildError::ParseFailure),
    };
    let start = match get_int_member(loc, &text("start")) {
        Some(n) => n,
        None => return Err(BuildError::ParseFailure),
    };
    let end = match get_int_member(loc, &text("end")) {
        Some(n) => n,
        None => return Err(BuildError::ParseFailure),
    };
    Ok(
        Diagnostic {
            severity,
            message: message.clone(),
            formatted_message: formatted.clone(),
            file: file.clone(),
            start,
            end,
        },
    )
}

/// `diags` are the entries read in order up to the first that is not
/// well-formed, and `outcome` is what the scan of `entries` ends with.
pub open spec fn scanned(
    entries: Seq<Json>,
    diags: Seq<Diagnostic>,
    outcome: Result<(), BuildError>,
) -> bool {
    &&& diags.len() <= entries.len()
    &&& forall|i: int|
        0 <= i < diags.len() ==> entry_fields(#[trigger] entries[i]) == Some(
            diagnostic_view(diags[i]),
        )
    &&& diags.len() < entries.len() ==> entry_fields(entries[diags.len() as int]) is None
        && outcome == Err::<(), BuildError>(entry_error(entries[diags.len() as int]))
    &&& diags.len() == entries.len() ==> if exists|i: int|
        0 <= i < diags.len() && (#[trigger] diags[i]).severity == Severity::Error {
        outcome matches Err(BuildError::CompilationFailed)
    } else {
        outcome is Ok
    }
}

/// What scanning the diagnostics of `res` yields: the entries of its `errors`
/// member, if it has one, read as `scanned` says.
pub open spec fn scan_spec(res: Json, diags: Seq<Diagnostic>, scan: Result<(), BuildError>) -> bool {
    match res {
        Json::Object(_) => match member(res, "errors"@) {
            None => diags.len() == 0 && scan is Ok,
            Some(Json::Array(entries)) => scanned(entries@, diags, scan),
            Some(_) => diags.len() == 0 && scan matches Err(BuildError::ParseFailure),
        },
        _ => diags.len() == 0 && scan matches Err(BuildError::ParseFailure),
    }
}

/// A response whose diagnostic entries are all well-formed, one of them of
/// error severity, yields every diagnostic and then fails the build.
pub proof fn lemma_error_entry_fails_build(
    res: Json,
    entries: Seq<Json>,
    k: int,
    diags: Seq<Diagnostic>,
    scan: Result<(), BuildError>,
)
    requires
        res is Object,
        member(res, "errors"@) matches Some(Json::Array(v)) && v@ == entries,
        forall|i: int| 0 <= i < entries.len() ==> (#[trigger] entry_fields(entries[i])) is Some,
        0 <= k < entries.len(),
        entry_fields(entries[k]) matches Some(v) && v.0 == Severity::Error,
        scan_spec(res, diags, scan),
    ensures
        diags.len() == entries.len(),
        scan matches Err(BuildError::CompilationFailed),
{
}

/// Reads the diagnostics of a response: every entry up to the first that is not
/// well-formed, and whether the build may go on.
pub fn scan_diagnostics(res: &Json) -> (r: (Vec<Diagnostic>, Result<(), BuildError>))
    ensures
        scan_spec(*res, r.0@, r.1),
{
    let mut diags: Vec<Diagnostic> = Vec::new();
    match res {
        Json::Object(_) => {},
        _ => return (diags, Err(BuildError::ParseFailure)),
    }
    let entries = match get_member(res, &text("errors")) {
        None => return (diags, Ok(())),
        Some(Json::Array(entries)) => entries,
        Some(_) => return (diags, Err(BuildError::ParseFailure)),
    };
    let n = entries.len();
    let mut severe = false;
    let mut i: usize = 0;
    while i < n
        invariant
            n == entries@.len(),
            member(*res, "errors"@) == Some(Json::Array(*entries)),
            *res is Object,
            i <= n,
            diags@.len() == i,
            forall|j: int|
                0 <= j < i ==> entry_fields(#[trigger] entries@[j]) == Some(
                    diagnostic_view(diags@[j]),
                ),
            severe <==> exists|j: int|
                0 <= j < i && (#[trigger] diags@[j]).severity == Severity::Error,
        decreases n - i,
    {
        match parse_entry(&entries[i]) {
            Ok(d) => {
                let is_error = d.severity == Severity::Error;
                let ghost before = diags@;
                diags.push(d);
                proof {
                    assert(forall|j: int| 0 <= j < i ==> diags@[j] == before[j]);
                    if severe {
                        let j = choose|j: int|
                            0 <= j < i && (#[trigger] before[j]).severity == Severity::Error;
                        assert(diags@[j] == before[j]);
                    }
                    if is_error {
                        assert(diags@[i as int].severity == Severity::Error);
                    }
                }
                severe = severe || is_error;
            },
            Err(e) => {
                return (diags, Err(e));
            },
        }
        i = i + 1;
    }
    if severe {
        (diags, Err(BuildError::CompilationFailed))
    } else {
        (diags, Ok(()))
    }
}

/// Whether a unit counts when no unit was named: any unit does, unless a binary
/// is to be built, when only a unit that emitted assembly does.
pub open spec fn qualifies(unit: Json, compile: bool) -> bool {
    !compile || member(unit, "assembly"@) is Some
}

/// How many of `units` qualify.
pub open spec fn count_qualifying(units: Seq<(String, Json)>, compile: bool) -> nat
    decreases units.len(),
{
    if units.len() == 0 {
        0
    } else {
        count_qualifying(units.drop_last(), compile) + if qualifies(units.last().1, compile) {
            1nat
        } else {
            0nat
        }
    }
}

/// The index of the first of `units` named `name`.
pub open spec fn first_named(units: Seq<(String, Json)>, name: Seq<char>) -> Option<int>
    decreases units.len(),
{
    if units.len() == 0 {
        None
    } else {
        match first_named(units.drop_last(), name) {
            Some(i) => Some(i),
            None => if units.last().0@ == name {
                Some(units.len() - 1)
            } else {
                None
            },
        }
    }
}

/// `r` is the outcome of choosing among `units`: the unit named `contract`
/// where one is named, else the single unit that qualifies; no unit, or more
/// than one, is an error.
pub open spec fn selects(
    units: Seq<(String, Json)>,
    contract: Option<String>,
    compile: bool,
    r: Result<int, BuildError>,
) -> bool {
    match contract {
        Some(name) => match first_named(units, name@) {
            Some(i) => r == Ok::<int, BuildError>(i),
            None => r matches Err(BuildError::MissingContract(n)) && n@ == name@,
        },
        None => {
            let n = count_qualifying(units, compile);
            if n == 0 {
                r matches Err(BuildError::NoContracts(d)) && d == compile
            } else if n == 1 {
                r matches Ok(i) && 0 <= i < units.len() && qualifies(units[i].1, compile)
            } else {
                r matches Err(BuildError::MultipleContracts(d)) && d == compile
            }
        },
    }
}

pub open spec fn int_result(r: Result<usize, BuildError>) -> Result<int, BuildError> {
    match r {
        Ok(i) => Ok(i as int),
        Err(e) => Err(e),
    }
}

fn qualifies_exec(unit: &Json, compile: bool) -> (r: bool)
    ensures
        r == qualifies(*unit, compile),
{
    !compile || get_member(unit, &text("assembly")).is_some()
}

/// Chooses the unit to build among those of one source file.
pub fn select_unit(units: &Vec<(String, Json)>, contract: &Option<String>, compile: bool) -> (r:
    Result<usize, BuildError>)
    ensures
        selects(units@, *contract, compile, int_result(r)),
{
    let n = units.len();
    match contract {
        Some(name) => {
            let mut i: usize = 0;
            while i < n
                invariant
                    n == units@.len(),
                    i <= n,
                    first_named(units@.take(i as int), name@) is None,
                    *contract == Some(*name),
                decreases n - i,
            {
                proof {
                    assert(units@.take(i + 1).drop_last() =~= units@.take(i as int));
                }
                if units[i].0 == *name {
                    proof {
                        assert(units@.take(i + 1).last() == units@[i as int]);
                        assert(first_named(units@.take(i + 1), name@) == Some(i as int));
                        lemma_first_named_prefix(units@, name@, (i + 1) as nat, i as int);
                    }
                    return Ok(i);
                }
                i = i + 1;
            }
            proof {
                assert(units@.take(n as int) =~= units@);
            }
            Err(BuildError::MissingContract(name.clone()))
        },
        None => {
            let mut count: usize = 0;
            let mut first: usize = 0;
            let mut i: usize = 0;
            while i < n
                invariant
                    n == units@.len(),
                    i <= n,
                    count <= i,
                    count == count_qualifying(units@.take(i as int), compile),
                    *contract is None,
                    count > 0 ==> first < i && qualifies(units@[first as int].1, compile),
                decreases n - i,
            {
                proof {
                    assert(units@.take(i + 1).drop_last() =~= units@.take(i as int));
                }
                if qualifies_exec(&units[i].1, compile) {
                    if count == 0 {
                        first = i;
                    }
                    count = count + 1;
                }
                i = i + 1;
            }
            proof {
                assert(units@.take(n as int) =~= units@);
            }
            if count == 0 {
                Err(BuildError::NoContracts(compile))
            } else if count == 1 {
                Ok(first)
            } else {
                Err(BuildError::MultipleContracts(compile))
            }
        },
    }
}

proof fn lemma_first_named_prefix(units: Seq<(String, Json)>, name: Seq<char>, k: nat, idx: int)
    requires
        k <= units.len(),
        first_named(units.take(k as int), name) == Some(idx),
    ensures
        first_named(units, name) == Some(idx),
    decreases units.len() - k,
{
    if k < units.len() {
        assert(units.take(k + 1 as int).drop_last() =~= units.take(k as int));
        lemma_first_named_prefix(units, name, k + 1, idx);
    } else {
        assert(units.take(k as int) =~= units);
    }
}

proof fn lemma_count_at_least_one(units: Seq<(String, Json)>, compile: bool, i: int)
    requires
        0 <= i < units.len(),
        qualifies(units[i].1, compile),
    ensures
        count_qualifying(units, compile) >= 1,
    decreases units.len(),
{
    if i < units.len() - 1 {
        lemma_count_at_least_one(units.drop_last(), compile, i);
    }
}

/// Two distinct units that both qualify make the count at least two, so that
/// selection without a named unit fails as ambiguous rather than picking one.
pub proof fn lemma_two_qualifying_units_are_ambiguous(
    units: Seq<(String, Json)>,
    compile: bool,
    i: int,
    j: int,
)
    requires
        0 <= i < units.len(),
        0 <= j < units.len(),
        i != j,
        qualifies(units[i].1, compile),
        qualifies(units[j].1, compile),
    ensures
        count_qualifying(units, compile) >= 2,
        forall|r: Result<int, BuildError>|
            #[trigger] selects(units, None, compile, r) ==> (r matches Err(
                BuildError::MultipleContracts(d),
            ) && d == compile),
    decreases units.len(),
{
    let last = units.len() - 1;
    if i == last {
        lemma_count_at_least_one(units.drop_last(), compile, j);
    } else if j == last {
        lemma_count_at_least_one(units.drop_last(), compile, i);
    } else {
        lemma_two_qualifying_units_are_ambiguous(units.drop_last(), compile, i, j);
    }
}

/// Selection is a function of the response: any two outcomes that selection may
/// give on the same units, unit name and mode are the same.
pub proof fn lemma_selection_idempotent(
    units: Seq<(String, Json)>,
    contract: Option<String>,
    compile: bool,
    r1: Result<int, BuildError>,
    r2: Result<int, BuildError>,
)
    requires
        selects(units, contract, compile, r1),
        selects(units, contract, compile, r2),
    ensures
        r1 is Ok <==> r2 is Ok,
        r1 matches Ok(i) ==> (r2 matches Ok(j) && i == j),
{
    if contract is None && r1 is Ok && r2 is Ok {
        let i = r1->Ok_0;
        let j = r2->Ok_0;
        if i != j {
            lemma_two_qualifying_units_are_ambiguous(units, compile, i, j);
        }
    }
}

/// The units that the response lists for source file `input`.
pub open spec fn units_of(res: Json, input: Seq<char>) -> Option<Seq<(String, Json)>> {
    match object_member(res, "contracts"@) {
        Some(files) => match field(files, input) {
            Some(Json::Object(units)) => Some(units@),
            _ => None,
        },
        None => None,
    }
}

/// The output of the chosen unit, or why the build stops, after a scan that
/// ended with `scan`.
pub open spec fn output_spec(
    res: Json,
    input: Seq<char>,
    contract: Option<String>,
    compile: bool,
    scan: Result<(), BuildError>,
    out: Result<&Json, BuildError>,
) -> bool {
    match scan {
        Err(e) => out == Err::<&Json, BuildError>(e),
        Ok(_) => match units_of(res, input) {
            None => out matches Err(BuildError::ParseFailure),
            Some(units) => match out {
                Ok(v) => exists|i: int|
                    selects(units, contract, compile, Ok(i)) && 0 <= i < units.len()
                        && #[trigger] units[i].1 == *v,
                Err(e) => selects(units, contract, compile, Err(e)),
            },
        },
    }
}

/// Reads a compiler response: its diagnostics, in order, and then either the
/// output of the chosen unit of `input` or why the build stops. Units are only
/// looked at when no diagnostic failed the build.
pub fn parse_comp_result<'a>(
    res: &'a Json,
    input: &String,
    contract: &Option<String>,
    compile: bool,
) -> (r: (Vec<Diagnostic>, Result<&'a Json, BuildError>))
    ensures
        match r.1 {
            Err(e) => scan_spec(*res, r.0@, Err(e)) || (scan_spec(*res, r.0@, Ok(()))
                && output_spec(*res, input@, *contract, compile, Ok(()), r.1)),
            Ok(_) => scan_spec(*res, r.0@, Ok(())) && output_spec(
                *res,
                input@,
                *contract,
                compile,
                Ok(()),
                r.1,
            ),
        },
{
    let (diags, scan) = scan_diagnostics(res);
    if let Err(e) = scan {
        return (diags, Err(e));
    }
    let units = match get_object_member(res, &text("contracts")) {
        Some(files) => match get_field(files, input) {
            Some(Json::Object(units)) => units,
            _ => return (diags, Err(BuildError::ParseFailure)),
        },
        None => return (diags, Err(BuildError::ParseFailure)),
    };
    match select_unit(units, contract, compile) {
        Ok(i) => {
            proof {
                if contract is Some {
                    let name = contract->Some_0;
                    lemma_first_named_bound(units@, name@);
                }
            }
            (diags, Ok(&units[i].1))
        },
        Err(e) => (diags, Err(e)),
    }
}

proof fn lemma_first_named_bound(units: Seq<(String, Json)>, name: Seq<char>)
    ensures
        first_named(units, name) matches Some(i) ==> 0 <= i < units.len(),
    decreases units.len(),
{
    if units.len() > 0 {
        lemma_first_named_bound(units.drop_last(), name);
    }
}

/// The syntax trees of every source of the response, in the response's order.
pub open spec fn asts_of(res: Json) -> Option<Seq<Json>> {
    match object_member(res, "sources"@) {
        Some(sources) => if forall|i: int|
            0 <= i < sources.len() ==> member(#[trigger] sources[i].1, "ast"@) is Some {
            Some(Seq::new(sources.len(), |i: int| member(sources[i].1, "ast"@)->Some_0))
        } else {
            None
        },
        None => None,
    }
}

/// Gathers the syntax tree of each source of the response.
pub fn collect_asts<'a>(res: &'a Json) -> (r: Result<Vec<&'a Json>, BuildError>)
    ensures
        match asts_of(*res) {
            Some(asts) => r matches Ok(v) && v@.len() == asts.len() && forall|i: int|
                0 <= i < asts.len() ==> *#[trigger] v@[i] == asts[i],
            None => r matches Err(BuildError::ParseFailure),
        },
{
    let sources = match get_object_member(res, &text("sources")) {
        Some(s) => s,
        None => return Err(BuildError::ParseFailure),
    };
    let key = text("ast");
    let n = sources.len();
    let mut out: Vec<&'a Json> = Vec::new();
    let mut i: usize = 0;
    while i < n
        invariant
            n == sources@.len(),
            object_member(*res, "sources"@) == Some(sources@),
            key@ == "ast"@,
            i <= n,
            out@.len() == i,
            forall|j: int|
                0 <= j < i ==> member(sources@[j].1, "ast"@) == Some(*#[trigger] out@[j]),
        decreases n - i,
    {
        match get_member(&sources[i].1, &key) {
            Some(ast) => {
                out.push(ast);
            },
            None => {
                proof {
                    assert(member(sources@[i as int].1, "ast"@) is None);
                    assert(asts_of(*res) is None);
                }
                return Err(BuildError::ParseFailure);
            },
        }
        i = i + 1;
    }
    proof {
        assert forall|j: int| 0 <= j < sources@.len() implies member(
            #[trigger] sources@[j].1,
            "ast"@,
        ) is Some by {
            assert(member(sources@[j].1, "ast"@) == Some(*out@[j]));
        }
        let asts = asts_of(*res)->Some_0;
        assert(asts.len() == n);
        assert forall|j: int| 0 <= j < n implies *#[trigger] out@[j] == asts[j] by {
            assert(member(sources@[j].1, "ast"@) == Some(*out@[j]));
        }
    }
    Ok(out)
}

} // verus!
