//! The functions and templates of a program and its main component.
use crate::ast::{Expression, FileLocation, Statement};
use vstd::prelude::*;

verus! {

/// A function: its name, where its parameters stand, their names and its body.
pub struct FunctionData {
    pub name: String,
    pub file_id: usize,
    pub param_location: FileLocation,
    pub name_of_params: Vec<String>,
    pub body: Vec<Statement>,
}

/// A template: as a function, and the names of its input signals, each once.
pub struct TemplateData {
    pub name: String,
    pub file_id: usize,
    pub param_location: FileLocation,
    pub name_of_params: Vec<String>,
    pub body: Vec<Statement>,
    pub inputs: Vec<String>,
}

/// The functions of a program, each name once.
pub type FunctionInfo = Vec<FunctionData>;

/// The templates of a program, each name once.
pub type TemplateInfo = Vec<TemplateData>;

/// A program: its templates and functions, the expression that builds its
/// main component, and the signals that component makes public.
pub struct ProgramArchive {
    pub templates: TemplateInfo,
    pub functions: FunctionInfo,
    pub main_expression: Expression,
    pub public_inputs: Vec<String>,
}

/// `i` is the first position of a function named `id`.
pub open spec fn first_function_at(fs: Seq<FunctionData>, id: Seq<char>, i: int) -> bool {
    &&& 0 <= i < fs.len()
    &&& fs[i].name@ == id
    &&& forall|j: int| 0 <= j < i ==> #[trigger] fs[j].name@ != id
}

/// A function named `id` is among `fs`.
pub open spec fn has_function(fs: Seq<FunctionData>, id: Seq<char>) -> bool {
    exists|i: int| 0 <= i < fs.len() && #[trigger] fs[i].name@ == id
}

/// The function named `id`: the first of that name.
pub open spec fn function_named(fs: Seq<FunctionData>, id: Seq<char>) -> FunctionData {
    fs[choose|i: int| first_function_at(fs, id, i)]
}

/// `i` is the first position of a template named `id`.
pub open spec fn first_template_at(ts: Seq<TemplateData>, id: Seq<char>, i: int) -> bool {
    &&& 0 <= i < ts.len()
    &&& ts[i].name@ == id
    &&& forall|j: int| 0 <= j < i ==> #[trigger] ts[j].name@ != id
}

/// A template named `id` is among `ts`.
pub open spec fn has_template(ts: Seq<TemplateData>, id: Seq<char>) -> bool {
    exists|i: int| 0 <= i < ts.len() && #[trigger] ts[i].name@ == id
}

/// The template named `id`: the first of that name.
pub open spec fn template_named(ts: Seq<TemplateData>, id: Seq<char>) -> TemplateData {
    ts[choose|i: int| first_template_at(ts, id, i)]
}

/// The position of the function named `id`, if there is one.
pub fn find_function(fs: &FunctionInfo, id: &String) -> (res: Option<usize>)
    ensures
        res is None <==> !has_function(fs@, id@),
        res matches Some(i) ==> first_function_at(fs@, id@, i as int) && fs@[i as int]
            == function_named(fs@, id@),
{
    let n = fs.len();
    for i in 0..n
        invariant
            n == fs.len(),
            forall|j: int| 0 <= j < i ==> #[trigger] fs@[j].name@ != id@,
    {
        if fs[i].name == *id {
            proof {
                assert(first_function_at(fs@, id@, i as int));
                let k = choose|k: int| first_function_at(fs@, id@, k);
                if k < i {
                    assert(fs@[k].name@ != id@);
                } else if k > i {
                    assert(fs@[i as int].name@ != id@);
                }
            }
            return Some(i);
        }
    }
    None
}

/// The position of the template named `id`, if there is one.
pub fn find_template(ts: &TemplateInfo, id: &String) -> (res: Option<usize>)
    ensures
        res is None <==> !has_template(ts@, id@),
        res matches Some(i) ==> first_template_at(ts@, id@, i as int) && ts@[i as int]
            == template_named(ts@, id@),
{
    let n = ts.len();
    for i in 0..n
        invariant
            n == ts.len(),
            forall|j: int| 0 <= j < i ==> #[trigger] ts@[j].name@ != id@,
    {
        if ts[i].name == *id {
            proof {
                assert(first_template_at(ts@, id@, i as int));
                let k = choose|k: int| first_template_at(ts@, id@, k);
                if k < i {
                    assert(ts@[k].name@ != id@);
                } else if k > i {
                    assert(ts@[i as int].name@ != id@);
                }
            }
            return Some(i);
        }
    }
    None
}

} // verus!
