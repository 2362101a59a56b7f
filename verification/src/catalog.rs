//! The read-only catalog the graph builder consumes: one entry per framework
//! or module, with declared dependencies, install commands and file
//! operations. Parsing and storage of the catalog live outside the engine;
//! these are the plain values it is handed.

use vstd::prelude::*;
use vstd::string::StringExecFns;
use crate::strutil::str_eq;

verus! {

/// One command-line argument of a framework's setup command.
#[derive(Debug, Clone)]
pub struct CliArgument {
    pub name: String,
    pub flag: Option<String>,
    pub enabled_default: bool,
    pub position: Option<u64>,
    pub value: Option<String>,
}

/// How a framework's scaffolding command is invoked.
#[derive(Debug, Clone)]
pub struct FrameworkCli {
    pub base_command: String,
    pub arguments: Vec<CliArgument>,
    pub interactive: bool,
    pub responses: Vec<CliResponse>,
}

/// A canned answer to one interactive prompt.
#[derive(Debug, Clone)]
pub struct CliResponse {
    pub prompt: String,
    pub response: String,
    pub use_project_name: bool,
}

/// The directory layout a framework enforces, if any.
#[derive(Debug, Clone)]
pub struct DirectoryStructure {
    pub enforced: bool,
    pub directories: Vec<String>,
}

/// A framework catalog entry.
#[derive(Debug, Clone)]
pub struct Framework {
    pub id: String,
    pub name: String,
    pub description: String,
    pub version: String,
    pub framework_type: String,
    pub tags: Vec<String>,
    pub cli: FrameworkCli,
    pub compatible_modules: Vec<String>,
    pub directory_structure: DirectoryStructure,
}

/// The ordered install steps of one module.
#[derive(Debug, Clone)]
pub struct ModuleInstallation {
    pub commands: Vec<String>,
    pub file_operations: Vec<FileOperation>,
}

/// One file operation a module applies: create a file, rewrite it against a
/// pattern, or adjust an import line.
#[derive(Debug, Clone)]
pub struct FileOperation {
    pub operation: String,
    pub path: String,
    pub content: String,
    pub pattern: String,
    pub replacement: String,
    pub action: String,
    pub import: String,
}

/// The default a module option starts with.
#[derive(Debug, Clone)]
pub enum OptionDefault {
    Flag(bool),
    Number(i64),
    Text(String),
}

/// One choice of a select-style module option.
#[derive(Debug, Clone)]
pub struct OptionChoice {
    pub value: String,
    pub label: String,
}

/// One configurable option of a module.
#[derive(Debug, Clone)]
pub struct ModuleOption {
    pub id: String,
    pub option_type: String,
    pub label: String,
    pub description: String,
    pub default: OptionDefault,
    pub choices: Vec<OptionChoice>,
}

/// The configurable options of a module.
#[derive(Debug, Clone)]
pub struct ModuleConfiguration {
    pub options: Vec<ModuleOption>,
}

/// A module catalog entry: what to install and what it depends on.
#[derive(Debug, Clone)]
pub struct Module {
    pub id: String,
    pub name: String,
    pub description: String,
    pub version: String,
    pub category: String,
    pub dependencies: Vec<String>,
    pub incompatible_with: Vec<String>,
    pub installation: ModuleInstallation,
    pub configuration: ModuleConfiguration,
}

/// The first catalog module carrying the id, if any.
pub open spec fn catalog_find(modules: Seq<Module>, id: Seq<char>) -> Option<Module>
    decreases modules.len(),
{
    if modules.len() == 0 {
        None
    } else if modules[0].id@ == id {
        Some(modules[0])
    } else {
        catalog_find(modules.drop_first(), id)
    }
}

/// Some framework of the list carries this id.
pub open spec fn has_framework(frameworks: Seq<Framework>, id: Seq<char>) -> bool {
    exists|i: int| 0 <= i < frameworks.len() && frameworks[i].id@ == id
}

/// Some module of the list carries this id.
pub open spec fn has_module(modules: Seq<Module>, id: Seq<char>) -> bool {
    exists|i: int| 0 <= i < modules.len() && modules[i].id@ == id
}

/// Find a framework by id: the first entry carrying it, or an error naming
/// the id. Succeeds exactly when some entry carries the id.
pub fn get_framework_by_id<'a>(frameworks: &'a Vec<Framework>, id: &str) -> (r: Result<
    &'a Framework,
    String,
>)
    ensures
        r is Ok <==> has_framework(frameworks@, id@),
        r matches Ok(f) ==> exists|i: int| 0 <= i < frameworks@.len() && *f == frameworks@[i]
            && f.id@ == id@,
        r matches Err(e) ==> e@ == "Framework with ID '"@ + id@ + "' not found"@,
{
    let n = frameworks.len();
    let mut i: usize = 0;
    while i < n
        invariant
            n == frameworks@.len(),
            0 <= i <= n,
            forall|j: int| 0 <= j < i ==> frameworks@[j].id@ != id@,
        decreases n - i,
    {
        if str_eq(frameworks[i].id.as_str(), id) {
            proof {
                assert(frameworks@[i as int].id@ == id@);
            }
            return Ok(&frameworks[i]);
        }
        i = i + 1;
    }
    Err(String::from_str("Framework with ID '").concat(id).concat("' not found"))
}

/// Find a module by id: the first entry carrying it, or an error naming the
/// id. Succeeds exactly when some entry carries the id.
pub fn get_module_by_id<'a>(modules: &'a Vec<Module>, id: &str) -> (r: Result<&'a Module, String>)
    ensures
        r is Ok <==> has_module(modules@, id@),
        r matches Ok(m) ==> exists|i: int| 0 <= i < modules@.len() && *m == modules@[i] && m.id@
            == id@,
        r matches Ok(m) ==> catalog_find(modules@, id@) == Some(*m),
        r matches Err(e) ==> e@ == "Module with ID '"@ + id@ + "' not found"@,
{
    let n = modules.len();
    proof {
        assert(modules@.skip(0) =~= modules@);
    }
    let mut i: usize = 0;
    while i < n
        invariant
            n == modules@.len(),
            0 <= i <= n,
            forall|j: int| 0 <= j < i ==> modules@[j].id@ != id@,
            catalog_find(modules@, id@) == catalog_find(modules@.skip(i as int), id@),
        decreases n - i,
    {
        if str_eq(modules[i].id.as_str(), id) {
            proof {
                assert(modules@[i as int].id@ == id@);
                assert(modules@.skip(i as int)[0] == modules@[i as int]);
                assert(catalog_find(modules@.skip(i as int), id@) == Some(modules@[i as int]));
            }
            return Ok(&modules[i]);
        }
        proof {
            assert(modules@.skip(i as int)[0] == modules@[i as int]);
            assert(modules@.skip(i as int).drop_first() =~= modules@.skip(i as int + 1));
        }
        i = i + 1;
    }
    proof {
        assert(modules@.skip(n as int) =~= Seq::<Module>::empty());
    }
    Err(String::from_str("Module with ID '").concat(id).concat("' not found"))
}

} // verus!
