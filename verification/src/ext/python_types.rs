//! The envelope: what the host asks the worker to run, and how a run ended.

use vstd::prelude::*;

verus! {

#[derive(Debug, Clone, PartialEq, Eq)]
pub enum PythonRequest {
    RunScript {
        package_id: String,
        /// The script's requirements file, relative to the package's
        /// `scripts` directory.
        requirements: String,
        /// The script to run, relative to the package's `scripts` directory.
        script: String,
        /// The function to call in the script.
        func: String,
        /// The arguments to pass to the function.
        args: Vec<String>,
    },
}

/// A response holds no output: the output of a run travels beside it, in the
/// blob.
#[derive(Debug, Clone, PartialEq, Eq)]
pub enum PythonResponse {
    RunScript,
    Failure(String),
}

/// A request with its texts as sequences of characters.
pub enum PythonRequestView {
    RunScript {
        package_id: Seq<char>,
        requirements: Seq<char>,
        script: Seq<char>,
        func: Seq<char>,
        args: Seq<Seq<char>>,
    },
}

/// A response with its text as a sequence of characters.
pub enum PythonResponseView {
    RunScript,
    Failure(Seq<char>),
}

impl View for PythonRequest {
    type V = PythonRequestView;

    open spec fn view(&self) -> PythonRequestView {
        match self {
            PythonRequest::RunScript { package_id, requirements, script, func, args } => {
                PythonRequestView::RunScript {
                    package_id: package_id@,
                    requirements: requirements@,
                    script: script@,
                    func: func@,
                    args: args.deep_view(),
                }
            },
        }
    }
}

impl View for PythonResponse {
    type V = PythonResponseView;

    open spec fn view(&self) -> PythonResponseView {
        match self {
            PythonResponse::RunScript => PythonResponseView::RunScript,
            PythonResponse::Failure(message) => PythonResponseView::Failure(message@),
        }
    }
}

} // verus!
