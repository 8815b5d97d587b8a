//! The context of a spawner: a record of resource handles.
//!
//! A context is declared as a record whose fields are handles to resources of
//! the entity store. A handle is written as the name of its kind with its
//! arguments in angle brackets, the first of which are lifetimes: one for an
//! `EventWriter`, a `Res` or a `ResMut`, two for a `Query`. The handler that is
//! wired for the context takes the same handles without those lifetimes.

use vstd::prelude::*;
use crate::config::{
    is_named, parse_attributes, verdict, spawn_context_names, Attribute, ConfigError,
    ConfigErrorView,
};

verus! {

/// The arguments of a path segment.
#[derive(Debug, PartialEq, Eq)]
pub enum PathArguments<A> {
    /// No arguments.
    Absent,
    /// Arguments in angle brackets.
    AngleBracketed(Vec<A>),
    /// Arguments in round brackets.
    Parenthesized,
}

/// One segment of a path: a name and its arguments.
#[derive(Debug, PartialEq, Eq)]
pub struct PathSegment<A> {
    pub ident: String,
    pub arguments: PathArguments<A>,
}

/// The type of a field, as far as a context is concerned.
#[derive(Debug, PartialEq, Eq)]
pub enum FieldType<A> {
    /// A path of segments.
    Path(Vec<PathSegment<A>>),
    /// Any other type.
    Other,
}

/// A resource handle: the name of its kind and its arguments.
pub struct HandleView<A> {
    pub kind: Seq<char>,
    pub args: Seq<A>,
}

/// The handle that a type is written as: a path of one segment with arguments
/// in angle brackets.
pub open spec fn as_handle<A>(ty: FieldType<A>) -> Option<HandleView<A>> {
    match ty {
        FieldType::Path(segments) => if segments@.len() == 1 {
            match segments@[0].arguments {
                PathArguments::AngleBracketed(args) => Some(
                    HandleView { kind: segments@[0].ident@, args: args@ },
                ),
                _ => None,
            }
        } else {
            None
        },
        FieldType::Other => None,
    }
}

/// How many lifetimes lead the arguments of a handle of this kind, if the
/// kind is known.
pub open spec fn leading_lifetimes(kind: Seq<char>) -> Option<nat> {
    if kind == "EventWriter"@ || kind == "Res"@ || kind == "ResMut"@ {
        Some(1)
    } else if kind == "Query"@ {
        Some(2)
    } else {
        None
    }
}

/// The arguments without the first `count` of them, or without all of them
/// where there are fewer.
pub open spec fn without_first<A>(args: Seq<A>, count: nat) -> Seq<A> {
    if count <= args.len() {
        args.skip(count as int)
    } else {
        Seq::empty()
    }
}

/// The handle that a type is written as, without its leading lifetimes.
pub open spec fn stripped<A>(ty: FieldType<A>) -> Option<HandleView<A>> {
    match as_handle(ty) {
        Some(handle) => match leading_lifetimes(handle.kind) {
            Some(count) => Some(
                HandleView { kind: handle.kind, args: without_first(handle.args, count) },
            ),
            None => None,
        },
        None => None,
    }
}

/// Drops up to `count` arguments from the front.
fn drop_leading<A>(args: Vec<A>, count: usize) -> (kept: Vec<A>)
    ensures
        kept@ == without_first(args@, count as nat),
{
    let mut kept = args;
    let mut dropped: usize = 0;
    while dropped < count && kept.len() > 0
        invariant
            dropped <= count,
            dropped <= args@.len(),
            kept@ == args@.skip(dropped as int),
        decreases count - dropped,
    {
        let ghost before = kept@;
        kept.remove(0);
        assert(kept@ =~= args@.skip(dropped as int + 1));
        dropped += 1;
    }
    assert(kept@ =~= without_first(args@, count as nat));
    kept
}

/// Rewrites the type of a context field as the handler takes it: the same
/// handle without its leading lifetimes.
///
/// Only a path of one segment with arguments in angle brackets whose name is
/// `EventWriter`, `Res`, `ResMut` or `Query` is a handle; every other type is
/// refused.
pub fn remove_system_param_lifetimes<A>(field: FieldType<A>) -> (rewritten: Result<
    FieldType<A>,
    ConfigError,
>)
    ensures
        match rewritten {
            Ok(ty) => as_handle(ty) is Some && as_handle(ty) == stripped(field),
            Err(error) => {
                &&& error@ == ConfigErrorView::UnsupportedFieldType
                &&& stripped(field) is None
            },
        },
{
    match field {
        FieldType::Path(segments) => {
            let mut segments = segments;
            if segments.len() != 1 {
                return Err(ConfigError::UnsupportedFieldType);
            }
            let segment = segments.pop().unwrap();
            let PathSegment { ident, arguments } = segment;
            match arguments {
                PathArguments::AngleBracketed(args) => {
                    let count: usize = if is_named(&ident, "EventWriter") || is_named(&ident, "Res")
                        || is_named(&ident, "ResMut") {
                        1
                    } else if is_named(&ident, "Query") {
                        2
                    } else {
                        return Err(ConfigError::UnsupportedFieldType);
                    };
                    let kept = drop_leading(args, count);
                    segments.push(
                        PathSegment { ident, arguments: PathArguments::AngleBracketed(kept) },
                    );
                    Ok(FieldType::Path(segments))
                },
                _ => Err(ConfigError::UnsupportedFieldType),
            }
        },
        FieldType::Other => Err(ConfigError::UnsupportedFieldType),
    }
}

/// One field of a declared type.
#[derive(Debug, PartialEq, Eq)]
pub struct Field<A> {
    pub ident: Option<String>,
    pub ty: FieldType<A>,
}

/// The shape of a declared type.
#[derive(Debug, PartialEq, Eq)]
pub enum Data<A> {
    /// A record, with its fields in the order of their declaration.
    Struct(Vec<Field<A>>),
    /// A choice of variants.
    Enum,
    /// An overlay of fields.
    Union,
}

/// The declaration of a context: its attributes, its name and its shape.
#[derive(Debug, PartialEq, Eq)]
pub struct DeriveInput<V, A> {
    pub attrs: Vec<Attribute<V>>,
    pub ident: String,
    pub data: Data<A>,
}

/// One parameter of the handler that is wired for a context: the name of the
/// field that it fills, and its handle.
#[derive(Debug, PartialEq, Eq)]
pub struct SystemParam<A> {
    pub ident: String,
    pub ty: FieldType<A>,
}

/// What is wired for a context: the handler fills a value of the record
/// `struct_name` from its parameters and calls `spawner` with it for every
/// entity on which `component` has arrived.
#[derive(Debug, PartialEq, Eq)]
pub struct SpawnContextPlan<V, A> {
    pub struct_name: String,
    pub component: V,
    pub spawner: V,
    pub system_params: Vec<SystemParam<A>>,
}

/// A `SystemParam` as its name and its handle.
pub struct ParamView<A> {
    pub name: Seq<char>,
    pub handle: HandleView<A>,
}

/// A `SpawnContextPlan` with its texts as sequences of characters and its
/// parameters as handles.
pub struct PlanView<V, A> {
    pub struct_name: Seq<char>,
    pub component: V,
    pub spawner: V,
    pub system_params: Seq<ParamView<A>>,
}

impl<A> SystemParam<A> {
    /// The type of the parameter is written as a handle.
    pub open spec fn well_formed(self) -> bool {
        as_handle(self.ty) is Some
    }
}

impl<A> View for SystemParam<A> {
    type V = ParamView<A>;

    open spec fn view(&self) -> ParamView<A> {
        ParamView { name: self.ident@, handle: as_handle(self.ty)->0 }
    }
}

impl<V, A> SpawnContextPlan<V, A> {
    /// Every parameter of the handler is a handle.
    pub open spec fn well_formed(self) -> bool {
        forall|k: int|
            0 <= k < self.system_params@.len() ==> (#[trigger] self.system_params@[k]).well_formed()
    }
}

impl<V, A> View for SpawnContextPlan<V, A> {
    type V = PlanView<V, A>;

    open spec fn view(&self) -> PlanView<V, A> {
        PlanView {
            struct_name: self.struct_name@,
            component: self.component,
            spawner: self.spawner,
            system_params: self.system_params@.map_values(|param: SystemParam<A>| param@),
        }
    }
}

/// The handler's parameter for one field of a context, or why the field is
/// refused: a field needs a name, and its type must be a handle of a known
/// kind.
pub open spec fn param_of<A>(field: Field<A>) -> Result<ParamView<A>, ConfigErrorView> {
    match field.ident {
        None => Err(ConfigErrorView::UnnamedField),
        Some(name) => match stripped(field.ty) {
            Some(handle) => Ok(ParamView { name: name@, handle }),
            None => Err(ConfigErrorView::UnsupportedFieldType),
        },
    }
}

/// The handler's parameters for the fields of a context, field by field, or
/// why the first field that is refused is refused.
pub open spec fn params_of<A>(fields: Seq<Field<A>>) -> Result<
    Seq<ParamView<A>>,
    ConfigErrorView,
>
    decreases fields.len(),
{
    if fields.len() == 0 {
        Ok(Seq::empty())
    } else {
        match param_of(fields[0]) {
            Err(error) => Err(error),
            Ok(param) => match params_of(fields.drop_first()) {
                Err(error) => Err(error),
                Ok(others) => Ok(seq![param] + others),
            },
        }
    }
}

/// What is wired for a declared context, or why its registration is refused.
///
/// The attributes are read first, and an error in them comes first. Then the
/// context must be a record, and then each field in turn must be a named
/// handle of a known kind.
pub open spec fn derived<V, A>(input: DeriveInput<V, A>) -> Result<
    PlanView<V, A>,
    ConfigErrorView,
> {
    match verdict(input.attrs@, spawn_context_names()) {
        Err(error) => Err(error),
        Ok(declared) => match input.data {
            Data::Struct(fields) => match params_of(fields@) {
                Err(error) => Err(error),
                Ok(system_params) => Ok(
                    PlanView {
                        struct_name: input.ident@,
                        component: declared[0],
                        spawner: declared[1],
                        system_params,
                    },
                ),
            },
            _ => Err(ConfigErrorView::NotAStruct),
        },
    }
}

/// The handler's parameter for one field of a context.
fn system_param<A>(field: Field<A>) -> (param: Result<SystemParam<A>, ConfigError>)
    ensures
        match param {
            Ok(param) => param.well_formed() && param_of(field) == Ok::<
                ParamView<A>,
                ConfigErrorView,
            >(param@),
            Err(error) => param_of(field) == Err::<ParamView<A>, ConfigErrorView>(error@),
        },
{
    let Field { ident, ty } = field;
    match ident {
        None => Err(ConfigError::UnnamedField),
        Some(ident) => match remove_system_param_lifetimes(ty) {
            Ok(ty) => Ok(SystemParam { ident, ty }),
            Err(error) => Err(error),
        },
    }
}

/// The handler's parameters for the fields of a context.
pub fn system_params<A>(fields: Vec<Field<A>>) -> (params: Result<Vec<SystemParam<A>>, ConfigError>)
    ensures
        match params {
            Ok(params) => {
                &&& forall|k: int| 0 <= k < params@.len() ==> (#[trigger] params@[k]).well_formed()
                &&& params_of(fields@) == Ok::<Seq<ParamView<A>>, ConfigErrorView>(
                    params@.map_values(|param: SystemParam<A>| param@),
                )
            },
            Err(error) => params_of(fields@) == Err::<Seq<ParamView<A>>, ConfigErrorView>(error@),
        },
{
    let mut rest = fields;
    let mut params: Vec<SystemParam<A>> = Vec::new();
    while rest.len() > 0
        invariant
            forall|k: int| 0 <= k < params@.len() ==> (#[trigger] params@[k]).well_formed(),
            params_of(fields@) == match params_of(rest@) {
                Ok(others) => Ok::<Seq<ParamView<A>>, ConfigErrorView>(
                    params@.map_values(|param: SystemParam<A>| param@) + others,
                ),
                Err(error) => Err(error),
            },
        decreases rest@.len(),
    {
        let ghost all = rest@;
        let ghost done = params@.map_values(|param: SystemParam<A>| param@);
        let field = rest.remove(0);
        assert(rest@ =~= all.drop_first());
        assert(field == all[0]);
        match system_param(field) {
            Err(error) => {
                return Err(error);
            },
            Ok(param) => {
                params.push(param);
                proof {
                    assert(params@.map_values(|param: SystemParam<A>| param@) =~= done.push(
                        param@,
                    ));
                    if let Ok(others) = params_of(rest@) {
                        assert(done + (seq![param@] + others) =~= done.push(param@) + others);
                    }
                }
            },
        }
    }
    assert(params@.map_values(|param: SystemParam<A>| param@) + Seq::empty() =~= params@.map_values(
        |param: SystemParam<A>| param@,
    ));
    Ok(params)
}

/// Works out what is to be wired for a declared context.
pub fn derive_spawn_context<V, A>(input: DeriveInput<V, A>) -> (plan: Result<
    SpawnContextPlan<V, A>,
    ConfigError,
>)
    ensures
        match plan {
            Ok(plan) => {
                &&& plan.well_formed()
                &&& derived(input) == Ok::<PlanView<V, A>, ConfigErrorView>(plan@)
            },
            Err(error) => derived(input) == Err::<PlanView<V, A>, ConfigErrorView>(error@),
        },
{
    let DeriveInput { attrs, ident, data } = input;
    let declared = match parse_attributes(attrs) {
        Ok(declared) => declared,
        Err(error) => {
            return Err(error);
        },
    };
    let fields = match data {
        Data::Struct(fields) => fields,
        _ => {
            return Err(ConfigError::NotAStruct);
        },
    };
    match system_params(fields) {
        Err(error) => Err(error),
        Ok(system_params) => Ok(
            SpawnContextPlan {
                struct_name: ident,
                component: declared.component,
                spawner: declared.spawner,
                system_params,
            },
        ),
    }
}

} // verus!
