//! The data that the stages hand to one another, and the model of each in
//! specifications: the same record with every text as a `Seq<char>`.

use vstd::prelude::*;

verus! {

/// One optimization pass as applied to one function: the text before it, the
/// text after it, and whether the two differ.
#[derive(Debug, Clone, PartialEq, Eq)]
pub struct Pass {
    pub name: String,
    pub machine: bool,
    pub after: String,
    pub before: String,
    pub ir_changed: bool,
}

/// The model of a `Pass`.
pub struct PassView {
    pub name: Seq<char>,
    pub machine: bool,
    pub after: Seq<char>,
    pub before: Seq<char>,
    pub ir_changed: bool,
}

impl View for Pass {
    type V = PassView;

    open spec fn view(&self) -> PassView {
        PassView {
            name: self.name@,
            machine: self.machine,
            after: self.after@,
            before: self.before@,
            ir_changed: self.ir_changed,
        }
    }
}

impl DeepView for Pass {
    type V = PassView;

    open spec fn deep_view(&self) -> PassView {
        self@
    }
}

/// The passes of every function of a transcript: for each function name the
/// passes over that function, in the order of the transcript. The names stand
/// in the order in which the functions first appear, each once.
pub type OptPipelineResults = Vec<(String, Vec<Pass>)>;

/// The sections of every function of a transcript, by function name.
pub type PassDumpsByFunction = Vec<(String, Vec<PassDump>)>;

/// One section of a transcript: a header and the text that follows it up to
/// the next header. After routing, the part of such a section that belongs to
/// one function.
#[derive(Debug, Clone, PartialEq, Eq)]
pub struct PassDump {
    pub header: String,
    pub affected_function: Option<String>,
    pub machine: bool,
    pub lines: String,
}

/// The model of a `PassDump`.
pub struct PassDumpView {
    pub header: Seq<char>,
    pub affected_function: Option<Seq<char>>,
    pub machine: bool,
    pub lines: Seq<char>,
}

impl View for PassDump {
    type V = PassDumpView;

    open spec fn view(&self) -> PassDumpView {
        PassDumpView {
            header: self.header@,
            affected_function: match self.affected_function {
                Some(f) => Some(f@),
                None => None,
            },
            machine: self.machine,
            lines: self.lines@,
        }
    }
}

impl DeepView for PassDump {
    type V = PassDumpView;

    open spec fn deep_view(&self) -> PassDumpView {
        self@
    }
}

/// One section of a transcript, cut into the functions that it shows: for
/// each function name the lines of its body, in the order in which the names
/// first appear.
#[derive(Debug, Clone, PartialEq, Eq)]
pub struct SplitPassDump {
    pub header: String,
    pub machine: bool,
    pub functions: Vec<(String, Vec<String>)>,
}

/// The model of a `SplitPassDump`.
pub struct SplitPassDumpView {
    pub header: Seq<char>,
    pub machine: bool,
    pub functions: Seq<(Seq<char>, Seq<Seq<char>>)>,
}

impl View for SplitPassDump {
    type V = SplitPassDumpView;

    open spec fn view(&self) -> SplitPassDumpView {
        SplitPassDumpView {
            header: self.header@,
            machine: self.machine,
            functions: self.functions.deep_view(),
        }
    }
}

impl DeepView for SplitPassDump {
    type V = SplitPassDumpView;

    open spec fn deep_view(&self) -> SplitPassDumpView {
        self@
    }
}

/// Why a transcript was not turned into passes.
#[derive(Debug, Clone, PartialEq, Eq)]
pub enum PassDumpError {
    /// A dump taken before a pass is directly followed, for the same function,
    /// by a dump taken after another pass. The names are those of the two
    /// passes as the headers have them, the mark of a pass that was rolled
    /// back included.
    PassMismatch { before_header: String, after_header: String },
    /// A dump of a loop stands where no function has been seen yet that it
    /// could belong to.
    MissingFunction { header: String },
    /// A section header says neither "before" nor "after" a pass.
    UnexpectedHeader { header: String },
    /// A dump before a pass and the dump after it are not at the same level:
    /// one is machine code, the other is not.
    LevelMismatch { header: String },
    /// A pattern of the parser was not accepted as a regular expression.
    InvalidPattern { pattern: String },
}

/// The model of a `PassDumpError`.
pub enum PassDumpErrorView {
    PassMismatch { before_header: Seq<char>, after_header: Seq<char> },
    MissingFunction { header: Seq<char> },
    UnexpectedHeader { header: Seq<char> },
    LevelMismatch { header: Seq<char> },
    InvalidPattern { pattern: Seq<char> },
}

impl View for PassDumpError {
    type V = PassDumpErrorView;

    open spec fn view(&self) -> PassDumpErrorView {
        match self {
            PassDumpError::PassMismatch { before_header, after_header } => {
                PassDumpErrorView::PassMismatch {
                    before_header: before_header@,
                    after_header: after_header@,
                }
            },
            PassDumpError::MissingFunction { header } => PassDumpErrorView::MissingFunction {
                header: header@,
            },
            PassDumpError::UnexpectedHeader { header } => PassDumpErrorView::UnexpectedHeader {
                header: header@,
            },
            PassDumpError::LevelMismatch { header } => PassDumpErrorView::LevelMismatch {
                header: header@,
            },
            PassDumpError::InvalidPattern { pattern } => PassDumpErrorView::InvalidPattern {
                pattern: pattern@,
            },
        }
    }
}

/// What the parser is asked to do with a transcript.
#[derive(Debug, Clone, Copy, PartialEq, Eq)]
pub struct OptPipelineBackendOptions {
    /// Strip calls, pragmas and records of debug information.
    pub filter_debug_info: bool,
    /// Strip references to metadata at the end of instructions.
    pub filter_ir_metadata: bool,
    /// Each dump shows the whole module, not one function.
    pub full_module: bool,
    /// Strip boilerplate before the transcript is cut into sections.
    pub apply_filters: bool,
    /// End the transcript at its first machine-code header.
    pub stop_at_machine_code: bool,
}

} // verus!
