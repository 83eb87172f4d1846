//! Model components.

use vstd::prelude::*;
use vstd::string::StringExecFns;

use crate::simulation::add_model;
use crate::simulation::model_id::ModelId;

verus! {

/// A local context for models.
///
/// A `Context` is a handle to the global context associated to a model
/// instance.
#[derive(Debug)]
pub struct Context {
    name: String,
}

impl Context {
    /// The model instance name.
    pub closed spec fn model_name(self) -> Seq<char> {
        self.name@
    }

    /// Creates a new local context.
    pub fn new(name: String) -> (context: Self)
        ensures
            context.model_name() == name@,
    {
        Context { name }
    }

    /// Returns the model instance name.
    pub fn name(&self) -> (name: &str)
        ensures
            name@ == self.model_name(),
    {
        self.name.as_str()
    }
}

/// The fully qualified name of a sub-model.
pub open spec fn submodel_name(parent: Seq<char>, name: Seq<char>) -> Seq<char> {
    parent + "."@ + (if name.len() == 0 {
        "<unknown>"@
    } else {
        name
    })
}

/// Context available when building a model from a model prototype.
///
/// A `BuildContext` can be used to add the sub-models of a hierarchical model
/// to the simulation bench.
#[derive(Debug)]
pub struct BuildContext<'a> {
    context: &'a Context,
}

impl<'a> BuildContext<'a> {
    /// The model instance name.
    pub closed spec fn model_name(self) -> Seq<char> {
        self.context.model_name()
    }

    /// Creates a new local context.
    pub fn new(context: &'a Context) -> (build_context: Self)
        ensures
            build_context.model_name() == context.model_name(),
    {
        BuildContext { context }
    }

    /// Returns the model instance name.
    pub fn name(&self) -> (name: &str)
        ensures
            name@ == self.model_name(),
    {
        self.context.name()
    }

    /// Returns the fully qualified name of a sub-model.
    pub fn qualified_name(&self, name: &str) -> (qualified: String)
        ensures
            qualified@ == submodel_name(self.model_name(), name@),
    {
        let mut qualified = self.context.name().to_owned();
        qualified.append(".");
        if name.is_empty() {
            qualified.append("<unknown>");
        } else {
            qualified.append(name);
        }
        qualified
    }

    /// Adds a sub-model to the simulation bench and returns its identifier.
    ///
    /// The `name` argument needs not be unique. If an empty string is provided,
    /// it is replaced by the string `<unknown>`.
    ///
    /// The provided name is appended to that of the parent model using a dot as
    /// a separator (e.g. `parent_name.child_name`) to build an identifier. This
    /// identifier is used for logging or error-reporting purposes.
    ///
    /// The sub-models of the sub-model itself are added first.
    pub fn add_submodel(&self, name: String, model_names: &mut Vec<String>) -> (id: ModelId)
        requires
            old(model_names)@.len() < usize::MAX,
        ensures
            id.index() == Some(old(model_names)@.len() as usize),
            final(model_names)@.len() == old(model_names)@.len() + 1,
            final(model_names)@.drop_last() == old(model_names)@,
            final(model_names)@.last()@ == submodel_name(self.model_name(), name@),
    {
        let id = add_model(model_names, self.qualified_name(name.as_str()));
        assert(model_names@.drop_last() =~= old(model_names)@);
        id
    }
}

/// The name of a sub-model begins with the name of its parent, followed by a dot and its
/// own name, which is never missing.
pub proof fn law_submodel_name(parent: Seq<char>, name: Seq<char>)
    ensures
        name.len() > 0 ==> submodel_name(parent, name) == parent + seq!['.'] + name,
        name.len() == 0 ==> submodel_name(parent, name) == parent + seq!['.'] + "<unknown>"@,
{
    reveal_strlit(".");
    assert("."@ =~= seq!['.']);
}

} // verus!
