use vstd::prelude::*;

use crate::args::{spec_compiles, Args};

verus! {

pub open spec fn quoted(s: Seq<char>) -> Seq<char> {
    "\""@ + s + "\""@
}

/// The include paths, each in quotes, separated by `", "`.
pub open spec fn quoted_list(paths: Seq<Seq<char>>) -> Seq<char>
    decreases paths.len(),
{
    if paths.len() == 0 {
        Seq::empty()
    } else if paths.len() == 1 {
        quoted(paths[0])
    } else {
        quoted_list(paths.drop_last()) + ", "@ + quoted(paths.last())
    }
}

pub open spec fn bool_text(b: bool) -> Seq<char> {
    if b {
        "true"@
    } else {
        "false"@
    }
}

pub open spec fn paths_view(v: Seq<String>) -> Seq<Seq<char>> {
    v.map_values(|s: String| s@)
}

/// The request that asks the compiler to build source `input` with `args`: the
/// interface always, the assembly when a binary is to be built, the function
/// ids when asked for, and the syntax tree.
pub open spec fn request_text(args: &Args, input: Seq<char>) -> Seq<char> {
    let main_contract = match args.contract {
        Some(c) => c@,
        None => Seq::empty(),
    };
    let assembly = if spec_compiles(args) {
        ", \"assembly\""@
    } else {
        ""@
    };
    let function_ids = if args.function_ids {
        ", \"showFunctionIds\""@
    } else {
        ""@
    };
    "{\"language\": \"Solidity\", \"settings\": {\"includePaths\": ["@ + quoted_list(
        paths_view(args.include_path@),
    ) + "], \"forceRemoteUpdate\": "@ + bool_text(args.tvm_refresh_remote)
        + ", \"mainContract\": "@ + quoted(main_contract) + ", \"outputSelection\": {"@
        + quoted(input) + ": {\"*\": [\"abi\""@ + assembly + function_ids
        + "], \"\": [\"ast\"]}}}, \"sources\": {"@ + quoted(input) + ": {\"urls\": ["@
        + quoted(input) + "]}}}"@
}

fn append_quoted(r: &mut String, s: &str)
    ensures
        final(r)@ == old(r)@ + quoted(s@),
{
    r.append("\"");
    r.append(s);
    r.append("\"");
}

/// The include paths, each in quotes, separated by `", "`.
pub fn include_paths_text(paths: &Vec<String>) -> (r: String)
    ensures
        r@ == quoted_list(paths_view(paths@)),
{
    let mut r = String::new();
    let n = paths.len();
    let mut i: usize = 0;
    while i < n
        invariant
            n == paths@.len(),
            i <= n,
            r@ == quoted_list(paths_view(paths@.take(i as int))),
        decreases n - i,
    {
        proof {
            assert(paths_view(paths@.take(i + 1)).drop_last() =~= paths_view(paths@.take(i as int)));
        }
        if i > 0 {
            r.append(", ");
        }
        append_quoted(&mut r, paths[i].as_str());
        proof {
            if i == 0 {
                assert(r@ =~= quoted_list(paths_view(paths@.take(1))));
            }
        }
        i = i + 1;
    }
    proof {
        assert(paths@.take(n as int) =~= paths@);
        if n == 0 {
            assert(r@ =~= Seq::<char>::empty());
        }
    }
    r
}

/// The request text handed to the compiler for source `input`.
pub fn compile_request(args: &Args, input: &String) -> (r: String)
    ensures
        r@ == request_text(args, input@),
{
    let mut r = String::from_str("{\"language\": \"Solidity\", \"settings\": {\"includePaths\": [");
    let paths = include_paths_text(&args.include_path);
    r.append(paths.as_str());
    r.append("], \"forceRemoteUpdate\": ");
    r.append(if args.tvm_refresh_remote { "true" } else { "false" });
    r.append(", \"mainContract\": ");
    match &args.contract {
        Some(c) => append_quoted(&mut r, c.as_str()),
        None => append_quoted(&mut r, ""),
    }
    r.append(", \"outputSelection\": {");
    append_quoted(&mut r, input.as_str());
    r.append(": {\"*\": [\"abi\"");
    if args.compiles() {
        r.append(", \"assembly\"");
    } else {
        r.append("");
    }
    if args.function_ids {
        r.append(", \"showFunctionIds\"");
    } else {
        r.append("");
    }
    r.append("], \"\": [\"ast\"]}}}, \"sources\": {");
    append_quoted(&mut r, input.as_str());
    r.append(": {\"urls\": [");
    append_quoted(&mut r, input.as_str());
    r.append("]}}}");
    proof {
        reveal_strlit("");
    }
    r
}

} // verus!
