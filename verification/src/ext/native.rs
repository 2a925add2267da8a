//! What a call into the embedded interpreter needs, worked out from a
//! request before anything is read or run.
//!
//! The requirements file and the script lie in the package's `scripts`
//! directory. The interpreter works in the package's directory for the time
//! of the call. The script is compiled as a module of its own, named after
//! the serial number of the run. The control loop gives every run it starts
//! the next number, so no two runs of a worker share a module, whatever the
//! ids of the frames that asked for them.

use vstd::prelude::*;
use vstd::string::StringExecFns;
use crate::ext::decimal::{append_decimal, decimal, lemma_decimal_is_injective};
use crate::ext::paths::{full_path, make_full_path, make_pkg_dir, pkg_dir};
use crate::ext::python_types::{PythonRequest, PythonRequestView};

verus! {

/// What every module name begins with.
pub const MODULE_PREFIX: &'static str = "script_";

/// What the name of a module's file ends with.
pub const FILE_SUFFIX: &'static str = ".py";

/// One call into the embedded interpreter.
#[derive(Debug, Clone, PartialEq, Eq)]
pub struct Invocation {
    /// The file that lists the script's dependencies.
    pub requirements_path: String,
    /// The file that holds the script.
    pub script_path: String,
    /// The directory in which the interpreter works during the call.
    pub working_dir: String,
    /// The name under which the script is compiled.
    pub module_name: String,
    /// The file name under which the script is compiled.
    pub file_name: String,
    /// The function to call.
    pub func: String,
    /// The arguments to pass, each as a string.
    pub args: Vec<String>,
}

/// An invocation with its texts as sequences of characters.
pub struct InvocationView {
    pub requirements_path: Seq<char>,
    pub script_path: Seq<char>,
    pub working_dir: Seq<char>,
    pub module_name: Seq<char>,
    pub file_name: Seq<char>,
    pub func: Seq<char>,
    pub args: Seq<Seq<char>>,
}

impl View for Invocation {
    type V = InvocationView;

    open spec fn view(&self) -> InvocationView {
        InvocationView {
            requirements_path: self.requirements_path@,
            script_path: self.script_path@,
            working_dir: self.working_dir@,
            module_name: self.module_name@,
            file_name: self.file_name@,
            func: self.func@,
            args: self.args.deep_view(),
        }
    }
}

/// The name of the module of the run with this serial number.
pub open spec fn module_name_of(serial: u64) -> Seq<char> {
    MODULE_PREFIX@ + decimal(serial as nat)
}

/// The invocation that serves `request` as the run with this serial number,
/// where the packages lie under `home`.
pub open spec fn invocation_of(home: Seq<char>, serial: u64, request: PythonRequestView)
    -> InvocationView {
    match request {
        PythonRequestView::RunScript { package_id, requirements, script, func, args } => {
            InvocationView {
                requirements_path: full_path(home, package_id, requirements),
                script_path: full_path(home, package_id, script),
                working_dir: pkg_dir(home, package_id),
                module_name: module_name_of(serial),
                file_name: module_name_of(serial) + FILE_SUFFIX@,
                func,
                args,
            }
        },
    }
}

/// The name of the module of the run with this serial number.
pub fn module_name(serial: u64) -> (name: String)
    ensures
        name@ == module_name_of(serial),
{
    let mut name: String = String::from_str(MODULE_PREFIX);
    append_decimal(&mut name, serial);
    name
}

/// Works out the call that serves `request` as the run with this serial
/// number: where its files are, where the interpreter works, under which
/// name the script is compiled, and what is called with which arguments.
pub fn run_python(home: &str, serial: u64, request: PythonRequest) -> (invocation: Invocation)
    ensures
        invocation@ == invocation_of(home@, serial, request@),
{
    match request {
        PythonRequest::RunScript { package_id, requirements, script, func, args } => {
            let requirements_path: String = make_full_path(
                home,
                package_id.as_str(),
                requirements.as_str(),
            );
            let script_path: String = make_full_path(home, package_id.as_str(), script.as_str());
            let working_dir: String = make_pkg_dir(home, package_id.as_str());
            let module: String = module_name(serial);
            let mut file_name: String = module.clone();
            file_name.append(FILE_SUFFIX);
            Invocation {
                requirements_path,
                script_path,
                working_dir,
                module_name: module,
                file_name,
                func,
                args,
            }
        },
    }
}

/// Runs with different serial numbers are compiled under different names,
/// in files of different names.
pub proof fn lemma_module_names_differ(a: u64, b: u64)
    requires
        a != b,
    ensures
        module_name_of(a) != module_name_of(b),
        module_name_of(a) + FILE_SUFFIX@ != module_name_of(b) + FILE_SUFFIX@,
{
    let prefix = MODULE_PREFIX@;
    let suffix = FILE_SUFFIX@;
    if module_name_of(a) + suffix == module_name_of(b) + suffix {
        let first = module_name_of(a) + suffix;
        let second = module_name_of(b) + suffix;
        assert(first.len() == second.len());
        assert(first.take(module_name_of(a).len() as int) =~= module_name_of(a));
        assert(second.take(module_name_of(b).len() as int) =~= module_name_of(b));
    }
    if module_name_of(a) == module_name_of(b) {
        assert(module_name_of(a).skip(prefix.len() as int) =~= decimal(a as nat));
        assert(module_name_of(b).skip(prefix.len() as int) =~= decimal(b as nat));
        lemma_decimal_is_injective(a as nat, b as nat);
    }
}

} // verus!
