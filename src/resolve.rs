//! Turning a function declaration of an interface schema into the shape of
//! a dynamic call: its receiver, its parameter types and its result types.
use crate::value::Type;
use vstd::prelude::*;

verus! {

/// Why a declaration could not be resolved.
#[derive(Clone, Copy, Debug, PartialEq, Eq, Structural)]
pub enum ResolutionError {
    /// The declaration refers to a type id that the schema lacks.
    UnknownType,
    /// The declaration refers to a type outside the closed type grammar, or
    /// declares a method without a resource receiver.
    UnsupportedShape,
}

/// The types an interface schema declares, by id; `None` for a declared
/// type outside the closed grammar (an unconstrained generic, say).
pub struct Schema {
    pub types: Vec<Option<Type>>,
}

/// How a function is declared.
#[derive(Clone, Copy, Debug, PartialEq, Eq, Structural)]
pub enum FunctionKind {
    /// A free function of the interface.
    Freestanding,
    /// A method of a resource: its first parameter is the receiver.
    Method,
    /// A static function of a resource.
    Static,
    /// The constructor of a resource.
    Constructor,
}

/// A function declaration: its kind, and its parameter and result types
/// as ids into the schema.
pub struct FunctionDecl {
    pub kind: FunctionKind,
    pub params: Vec<u32>,
    pub results: Vec<u32>,
}

/// The resolved shape of a call, with types as ids into the schema.
#[derive(Debug, PartialEq, Eq)]
pub enum DynamicFunction {
    /// A method: the receiver, then the remaining parameters.
    Method { self_param: u32, params: Vec<u32>, results: Vec<u32> },
    /// Any other function.
    Static { params: Vec<u32>, results: Vec<u32> },
}

/// What is wrong with the type id `id`, if anything.
pub open spec fn id_error(types: Seq<Option<Type>>, id: u32) -> Option<ResolutionError> {
    if id >= types.len() {
        Some(ResolutionError::UnknownType)
    } else if types[id as int] is None {
        Some(ResolutionError::UnsupportedShape)
    } else {
        None
    }
}

/// What is wrong with the first of `ids` that has something wrong with it.
pub open spec fn first_error(types: Seq<Option<Type>>, ids: Seq<u32>) -> Option<ResolutionError>
    decreases ids.len(),
{
    if ids.len() == 0 {
        None
    } else {
        match id_error(types, ids[0]) {
            Some(e) => Some(e),
            None => first_error(types, ids.drop_first()),
        }
    }
}

/// Whether the type with id `id` is a resource handle.
pub open spec fn is_handle(types: Seq<Option<Type>>, id: u32) -> bool {
    id < types.len() && (types[id as int] == Some(Type::Own) || types[id as int] == Some(
        Type::Borrow,
    ))
}

impl DynamicFunction {
    /// Resolves the declaration `decl` against `schema`.
    ///
    /// Fails with the error of the first parameter or result type (in that
    /// order) that the schema lacks or cannot express, and with
    /// [`ResolutionError::UnsupportedShape`] for a method whose first
    /// parameter is no resource handle.
    pub fn resolve(schema: &Schema, decl: &FunctionDecl) -> (r: Result<
        DynamicFunction,
        ResolutionError,
    >)
        ensures
            first_error(schema.types@, decl.params@ + decl.results@) is Some ==> r == Err::<
                DynamicFunction,
                ResolutionError,
            >(first_error(schema.types@, decl.params@ + decl.results@)->Some_0),
            first_error(schema.types@, decl.params@ + decl.results@) is None ==> if decl.kind
                == FunctionKind::Method {
                if decl.params@.len() > 0 && is_handle(schema.types@, decl.params@[0]) {
                    r matches Ok(DynamicFunction::Method { self_param, params, results })
                        && self_param == decl.params@[0] && params@ == decl.params@.drop_first()
                        && results@ == decl.results@
                } else {
                    r == Err::<DynamicFunction, ResolutionError>(
                        ResolutionError::UnsupportedShape,
                    )
                }
            } else {
                r matches Ok(DynamicFunction::Static { params, results }) && params@
                    == decl.params@ && results@ == decl.results@
            },
    {
        if let Some(e) = check_ids(schema, &decl.params, &decl.results) {
            return Err(e);
        }
        let params = copy_ids(&decl.params, 0);
        let results = copy_ids(&decl.results, 0);
        if decl.kind == FunctionKind::Method {
            if decl.params.len() == 0 {
                return Err(ResolutionError::UnsupportedShape);
            }
            let receiver = decl.params[0];
            let handle = match &schema.types[receiver as usize] {
                Some(Type::Own) | Some(Type::Borrow) => true,
                _ => false,
            };
            if !handle {
                return Err(ResolutionError::UnsupportedShape);
            }
            let rest = copy_ids(&decl.params, 1);
            assert(rest@ =~= decl.params@.drop_first());
            Ok(DynamicFunction::Method { self_param: receiver, params: rest, results })
        } else {
            Ok(DynamicFunction::Static { params, results })
        }
    }

    /// The result types of the call.
    pub fn results(&self) -> (r: &Vec<u32>)
        ensures
            r == match self {
                DynamicFunction::Method { results, .. } => results,
                DynamicFunction::Static { results, .. } => results,
            },
    {
        match self {
            DynamicFunction::Method { results, .. } => results,
            DynamicFunction::Static { results, .. } => results,
        }
    }
}

/// The ids of `ids` from position `from` on.
fn copy_ids(ids: &Vec<u32>, from: usize) -> (r: Vec<u32>)
    requires
        from <= ids@.len(),
    ensures
        r@ == ids@.skip(from as int),
{
    let mut r: Vec<u32> = Vec::new();
    let mut i = from;
    while i < ids.len()
        invariant
            from <= i <= ids@.len(),
            r@ == ids@.subrange(from as int, i as int),
        decreases ids@.len() - i,
    {
        r.push(ids[i]);
        i = i + 1;
        assert(r@ =~= ids@.subrange(from as int, i as int));
    }
    assert(ids@.skip(from as int) =~= ids@.subrange(from as int, i as int));
    r
}

/// What is wrong with the type id `id`, if anything.
fn check_id(schema: &Schema, id: u32) -> (r: Option<ResolutionError>)
    ensures
        r == id_error(schema.types@, id),
{
    if id as usize >= schema.types.len() {
        Some(ResolutionError::UnknownType)
    } else if schema.types[id as usize].is_none() {
        Some(ResolutionError::UnsupportedShape)
    } else {
        None
    }
}

proof fn lemma_first_error_skip(types: Seq<Option<Type>>, ids: Seq<u32>, i: int)
    requires
        0 <= i < ids.len(),
        forall|k: int| 0 <= k < i ==> id_error(types, #[trigger] ids[k]) is None,
    ensures
        first_error(types, ids) == first_error(types, ids.skip(i)),
    decreases i,
{
    if i > 0 {
        assert(ids.drop_first().skip(i - 1) =~= ids.skip(i));
        lemma_first_error_skip(types, ids.drop_first(), i - 1);
        assert(id_error(types, ids[0]) is None);
    } else {
        assert(ids.skip(0) =~= ids);
    }
}

/// What is wrong with the first of `params`, then `results`, that has
/// something wrong with it.
fn check_ids(schema: &Schema, params: &Vec<u32>, results: &Vec<u32>) -> (r: Option<ResolutionError>)
    ensures
        r == first_error(schema.types@, params@ + results@),
{
    let ghost all = params@ + results@;
    let mut i: usize = 0;
    while i < params.len()
        invariant
            i <= params@.len(),
            all == params@ + results@,
            forall|k: int| 0 <= k < i ==> id_error(schema.types@, #[trigger] all[k]) is None,
        decreases params@.len() - i,
    {
        assert(params[i as int] == all[i as int]);
        if let Some(e) = check_id(schema, params[i]) {
            proof {
                lemma_first_error_skip(schema.types@, all, i as int);
            }
            return Some(e);
        }
        i = i + 1;
    }
    let mut j: usize = 0;
    while j < results.len()
        invariant
            j <= results@.len(),
            all == params@ + results@,
            forall|k: int| 0 <= k < params@.len() + j ==> id_error(schema.types@, #[trigger] all[k]) is None,
        decreases results@.len() - j,
    {
        assert(results[j as int] == all[params@.len() + j]);
        if let Some(e) = check_id(schema, results[j]) {
            proof {
                lemma_first_error_skip(schema.types@, all, params@.len() + j);
            }
            return Some(e);
        }
        j = j + 1;
    }
    proof {
        lemma_first_error_all_ok(schema.types@, all);
    }
    None
}

proof fn lemma_first_error_all_ok(types: Seq<Option<Type>>, ids: Seq<u32>)
    requires
        forall|k: int| 0 <= k < ids.len() ==> id_error(types, #[trigger] ids[k]) is None,
    ensures
        first_error(types, ids) is None,
    decreases ids.len(),
{
    if ids.len() > 0 {
        assert(id_error(types, ids[0]) is None);
        assert forall|k: int| 0 <= k < ids.drop_first().len() implies id_error(
            types,
            #[trigger] ids.drop_first()[k],
        ) is None by {
            assert(ids.drop_first()[k] == ids[k + 1]);
        }
        lemma_first_error_all_ok(types, ids.drop_first());
    }
}

} // verus!
