use vstd::prelude::*;
use vstd::string::*;

verus! {

/// Errors raised anywhere in the pipeline; most carry the source offset
/// at which they were detected.
#[derive(Debug, Clone, PartialEq, Eq)]
pub enum PangError {
    SyntaxError(usize),
    InstanceAlreadyExists(String, usize),
    InstanceNonExistent(String, usize),
    TemplateAlreadyExists(String, usize),
    TemplateNonExistent(String, usize),
    TypeMismatch(usize),
    DataNonExistent(usize),
    ExecutionError,
}

/// The model of a [`PangError`]: names as character sequences.
pub enum ErrorModel {
    SyntaxError(usize),
    InstanceAlreadyExists(Seq<char>, usize),
    InstanceNonExistent(Seq<char>, usize),
    TemplateAlreadyExists(Seq<char>, usize),
    TemplateNonExistent(Seq<char>, usize),
    TypeMismatch(usize),
    DataNonExistent(usize),
    ExecutionError,
}

impl View for PangError {
    type V = ErrorModel;

    open spec fn view(&self) -> ErrorModel {
        match self {
            PangError::SyntaxError(p) => ErrorModel::SyntaxError(*p),
            PangError::InstanceAlreadyExists(n, p) => ErrorModel::InstanceAlreadyExists(n@, *p),
            PangError::InstanceNonExistent(n, p) => ErrorModel::InstanceNonExistent(n@, *p),
            PangError::TemplateAlreadyExists(n, p) => ErrorModel::TemplateAlreadyExists(n@, *p),
            PangError::TemplateNonExistent(n, p) => ErrorModel::TemplateNonExistent(n@, *p),
            PangError::TypeMismatch(p) => ErrorModel::TypeMismatch(*p),
            PangError::DataNonExistent(p) => ErrorModel::DataNonExistent(*p),
            PangError::ExecutionError => ErrorModel::ExecutionError,
        }
    }
}

/// The text of `desc`, as a sequence of characters.
pub open spec fn desc_of(e: PangError) -> Seq<char> {
    match e {
        PangError::ExecutionError => "Something unexpected went wrong during execution :/"@,
        PangError::SyntaxError(_) => "Syntax error occurred"@,
        PangError::InstanceAlreadyExists(name, _) => "Instance "@ + name@ + " already exists."@,
        PangError::InstanceNonExistent(name, _) => "Instance "@ + name@ + " doesn't exist."@,
        PangError::TemplateAlreadyExists(name, _) => "Template "@ + name@ + " already exists."@,
        PangError::TemplateNonExistent(name, _) => "Template "@ + name@ + " doesn't exist."@,
        PangError::TypeMismatch(_) => "Unexpected data type."@,
        PangError::DataNonExistent(_) => "Data point doesn't exist in Template/Instance."@,
    }
}

/// The source offset of an error; `usize::MAX` where none applies.
pub open spec fn loc_of(e: PangError) -> usize {
    match e {
        PangError::ExecutionError => usize::MAX,
        PangError::SyntaxError(loc) => loc,
        PangError::InstanceAlreadyExists(_, loc) => loc,
        PangError::InstanceNonExistent(_, loc) => loc,
        PangError::TemplateAlreadyExists(_, loc) => loc,
        PangError::TemplateNonExistent(_, loc) => loc,
        PangError::TypeMismatch(loc) => loc,
        PangError::DataNonExistent(loc) => loc,
    }
}

/// The numeric error code reported to clients.
pub open spec fn code_of(e: PangError) -> usize {
    match e {
        PangError::ExecutionError => 0,
        PangError::SyntaxError(_) => 15,
        PangError::InstanceAlreadyExists(_, _) => 5,
        PangError::InstanceNonExistent(_, _) => 6,
        PangError::TemplateAlreadyExists(_, _) => 9,
        PangError::TemplateNonExistent(_, _) => 10,
        PangError::TypeMismatch(_) => 1,
        PangError::DataNonExistent(_) => 2,
    }
}

fn framed(prefix: &str, name: &String, suffix: &str) -> (r: String)
    ensures
        r@ == prefix@ + name@ + suffix@,
{
    let s = String::from_str(prefix);
    let s = s.concat(name.as_str());
    s.concat(suffix)
}

impl PangError {
    /// Detailed description of the error.
    pub fn desc(&self) -> (r: String)
        ensures
            r@ == desc_of(*self),
    {
        match self {
            PangError::ExecutionError => String::from_str(
                "Something unexpected went wrong during execution :/",
            ),
            PangError::SyntaxError(_) => String::from_str("Syntax error occurred"),
            PangError::InstanceAlreadyExists(name, _) => framed("Instance ", name, " already exists."),
            PangError::InstanceNonExistent(name, _) => framed("Instance ", name, " doesn't exist."),
            PangError::TemplateAlreadyExists(name, _) => framed("Template ", name, " already exists."),
            PangError::TemplateNonExistent(name, _) => framed("Template ", name, " doesn't exist."),
            PangError::TypeMismatch(_) => String::from_str("Unexpected data type."),
            PangError::DataNonExistent(_) => String::from_str(
                "Data point doesn't exist in Template/Instance.",
            ),
        }
    }

    /// Location where the error occurred.
    pub fn loc(&self) -> (r: usize)
        ensures
            r == loc_of(*self),
    {
        match self {
            PangError::ExecutionError => usize::MAX,
            PangError::SyntaxError(loc) => *loc,
            PangError::InstanceAlreadyExists(_, loc) => *loc,
            PangError::InstanceNonExistent(_, loc) => *loc,
            PangError::TemplateAlreadyExists(_, loc) => *loc,
            PangError::TemplateNonExistent(_, loc) => *loc,
            PangError::TypeMismatch(loc) => *loc,
            PangError::DataNonExistent(loc) => *loc,
        }
    }

    /// The numeric error code.
    pub fn code(&self) -> (r: usize)
        ensures
            r == code_of(*self),
    {
        match self {
            PangError::ExecutionError => 0b0000,
            PangError::SyntaxError(_) => 0b1111,
            PangError::InstanceAlreadyExists(_, _) => 0b0101,
            PangError::InstanceNonExistent(_, _) => 0b0110,
            PangError::TemplateAlreadyExists(_, _) => 0b1001,
            PangError::TemplateNonExistent(_, _) => 0b1010,
            PangError::TypeMismatch(_) => 0b0001,
            PangError::DataNonExistent(_) => 0b0010,
        }
    }
}

} // verus!
