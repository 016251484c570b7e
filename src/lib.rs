//! Template substitution: a parser that turns template bytes into tokens and
//! symbols, and a generator that resolves the symbols against a variable
//! source. Around it: a chain of path rewrites for output locations, and an
//! in-memory file store.

pub mod dictionary;
pub mod error_handling;
pub mod generate;
pub mod memfs_tracer;
pub mod path_interpreter;
pub mod template;
pub mod template_fs;
pub mod text;
pub mod variables;

pub use error_handling::{res_err, res_ok, Warning};
pub use generate::{
    apply, generate_template, get_undefined_vars, GenerateTemplate, SubstitutionError,
    TemplateError,
};
pub use memfs_tracer::{NoopTracer, Trace, Tracer};
pub use path_interpreter::{
    dedup_path_sep, ForwardPath, PathError, PathInterpreter, PathPluggable, PathPlugin, PathRemap,
    SuffixRelativePath,
};
pub use template::{
    parse_template, BufReadTemplate, ConcreteTemplate, ParseError, Symbols, Template,
    TemplateParser, TemplateTrait, Token,
};
pub use template_fs::{FileReadStr, FileStr, FileTrait, FileWriteStr, FsError, MemFS, RootedFS};
pub use text::{bytes_to_string, BytesToStringExt, InvalidText};
pub use variables::{DefnError, JsonLeaf, VariableMap, VariableTrait, VariablesError};
