use vstd::prelude::*;

verus! {

/// The options of one build.
pub struct Args {
    /// Source file name.
    pub input: String,
    /// Contract to build if sources define more than one contract.
    pub contract: Option<String>,
    /// Output directory (by default, the current directory).
    pub output_dir: Option<String>,
    /// Output prefix (by default, the input file stem).
    pub output_prefix: Option<String>,
    /// Additional paths to search for imports.
    pub include_path: Vec<String>,
    /// Library to use instead of the default one.
    pub lib: Option<String>,
    /// Parameters to execute the constructor with.
    pub ctor_params: Option<String>,
    /// File to store a newly generated keypair in.
    pub gen_key: Option<String>,
    /// File to read a keypair from.
    pub set_key: Option<String>,
    /// Initial values of static fields.
    pub init: Option<String>,
    /// Print name and id for each public function.
    pub function_ids: bool,
    /// Get the AST of all source files in JSON format.
    pub ast_json: bool,
    /// Get the AST of all source files in compact JSON format.
    pub ast_compact_json: bool,
    /// Get the ABI without actually compiling.
    pub abi_json: bool,
    /// Force download and rewrite remote import files.
    pub tvm_refresh_remote: bool,
}

/// What a build produces.
#[derive(Clone, Copy, Debug, PartialEq, Eq, Structural)]
pub enum OutputMode {
    /// Print the function ids of the chosen unit; write no file.
    FunctionIds,
    /// Write the syntax trees of all sources, pretty-printed or compact.
    Ast { pretty: bool },
    /// Write the interface description only.
    AbiOnly,
    /// Write the interface description, the assembly, the binary and its debug map.
    Full,
}

/// Which keypair is bound into the assembler.
pub enum KeyAction {
    /// Generate a keypair and store it in this file (and its `.pub` sibling).
    Generate(String),
    /// Load the keypair from this file.
    Load(String),
    /// Bind none.
    NoKey,
}

/// Whether a binary is to be built: not when only the interface or syntax
/// trees are wanted.
pub open spec fn spec_compiles(args: &Args) -> bool {
    !(args.abi_json || args.ast_json || args.ast_compact_json)
}

pub open spec fn spec_output_mode(args: &Args) -> OutputMode {
    if args.function_ids {
        OutputMode::FunctionIds
    } else if args.ast_json || args.ast_compact_json {
        OutputMode::Ast { pretty: args.ast_json }
    } else if args.abi_json {
        OutputMode::AbiOnly
    } else {
        OutputMode::Full
    }
}

impl Args {
    /// Whether a binary is to be built.
    pub fn compiles(&self) -> (r: bool)
        ensures
            r == spec_compiles(self),
    {
        !(self.abi_json || self.ast_json || self.ast_compact_json)
    }

    /// What this build produces.
    pub fn output_mode(&self) -> (r: OutputMode)
        ensures
            r == spec_output_mode(self),
    {
        if self.function_ids {
            OutputMode::FunctionIds
        } else if self.ast_json || self.ast_compact_json {
            OutputMode::Ast { pretty: self.ast_json }
        } else if self.abi_json {
            OutputMode::AbiOnly
        } else {
            OutputMode::Full
        }
    }

    /// The keypair to bind: a generated one takes precedence over a loaded one.
    pub fn key_action(&self) -> (r: KeyAction)
        ensures
            match self.gen_key {
                Some(f) => r matches KeyAction::Generate(g) && g@ == f@,
                None => match self.set_key {
                    Some(f) => r matches KeyAction::Load(g) && g@ == f@,
                    None => r is NoKey,
                },
            },
    {
        match &self.gen_key {
            Some(f) => KeyAction::Generate(f.clone()),
            None => match &self.set_key {
                Some(f) => KeyAction::Load(f.clone()),
                None => KeyAction::NoKey,
            },
        }
    }

    /// The output directory: the one given, else the current directory.
    pub fn output_dir_or_default(&self) -> (r: String)
        ensures
            match self.output_dir {
                Some(d) => r@ == d@,
                None => r@ == "."@,
            },
    {
        match &self.output_dir {
            Some(d) => d.clone(),
            None => String::from_str("."),
        }
    }
}

} // verus!
