//! Declarations that a registration is given, and the errors of a
//! registration that is not configured as it must be.
//!
//! A registration names the kinds that it wires together in one or more
//! attributes, each a list of `name = value` arguments. The first attribute
//! that has a verdict decides: a list that does not read as such arguments,
//! or that has an argument of an unknown name, is an error; a list that
//! declares every required name gives the declaration. An attribute that is
//! no list, or that is short of a required name, is passed over.

use vstd::prelude::*;

verus! {

/// Why a registration was refused.
#[derive(Debug, PartialEq, Eq)]
pub enum ConfigError {
    /// A list attribute does not read as `name = value` arguments.
    MalformedArguments,
    /// An argument has a name that the registration does not know.
    UnknownArgument(String),
    /// No attribute declares every required name.
    MissingAttribute,
    /// The context is no record type.
    NotAStruct,
    /// A field of the context has no name.
    UnnamedField,
    /// A field of the context is no resource handle of a known kind.
    UnsupportedFieldType,
}

/// A `ConfigError` with its text as a sequence of characters.
pub enum ConfigErrorView {
    MalformedArguments,
    UnknownArgument(Seq<char>),
    MissingAttribute,
    NotAStruct,
    UnnamedField,
    UnsupportedFieldType,
}

impl View for ConfigError {
    type V = ConfigErrorView;

    open spec fn view(&self) -> ConfigErrorView {
        match self {
            ConfigError::MalformedArguments => ConfigErrorView::MalformedArguments,
            ConfigError::UnknownArgument(name) => ConfigErrorView::UnknownArgument(name@),
            ConfigError::MissingAttribute => ConfigErrorView::MissingAttribute,
            ConfigError::NotAStruct => ConfigErrorView::NotAStruct,
            ConfigError::UnnamedField => ConfigErrorView::UnnamedField,
            ConfigError::UnsupportedFieldType => ConfigErrorView::UnsupportedFieldType,
        }
    }
}

/// One argument of an attribute: `name = value`.
#[derive(Debug, PartialEq, Eq)]
pub struct EventModifierArg<V> {
    pub name: String,
    pub value: V,
}

/// One attribute of a registration.
#[derive(Debug, PartialEq, Eq)]
pub enum Attribute<V> {
    /// A list of arguments.
    List(Vec<EventModifierArg<V>>),
    /// A list that does not read as `name = value` arguments.
    Malformed,
    /// An attribute of any other form.
    Other,
}

/// Whether `name` reads as `expected`.
pub fn is_named(name: &String, expected: &str) -> (same: bool)
    ensures
        same == (name@ == expected@),
{
    let expected = String::from_str(expected);
    *name == expected
}

/// The texts of a list of names.
pub open spec fn texts(names: Seq<String>) -> Seq<Seq<char>> {
    names.map_values(|name: String| name@)
}

/// The name of the first argument whose name is not among `names`.
pub open spec fn first_unknown<V>(args: Seq<EventModifierArg<V>>, names: Seq<Seq<char>>) -> Option<
    Seq<char>,
>
    decreases args.len(),
{
    if args.len() == 0 {
        None
    } else if !names.contains(args[0].name@) {
        Some(args[0].name@)
    } else {
        first_unknown(args.drop_first(), names)
    }
}

/// The value that the arguments give to `name`. Where several arguments have
/// that name, the last of them counts.
pub open spec fn declared<V>(args: Seq<EventModifierArg<V>>, name: Seq<char>) -> Option<V>
    decreases args.len(),
{
    if args.len() == 0 {
        None
    } else {
        match declared(args.drop_first(), name) {
            Some(value) => Some(value),
            None => if args[0].name@ == name {
                Some(args[0].value)
            } else {
                None
            },
        }
    }
}

/// The arguments give a value to each of `names`.
pub open spec fn declares_all<V>(args: Seq<EventModifierArg<V>>, names: Seq<Seq<char>>) -> bool {
    forall|k: int| 0 <= k < names.len() ==> (#[trigger] declared(args, names[k])) is Some
}

/// The values that the arguments give to `names`, name by name.
pub open spec fn declarations<V>(args: Seq<EventModifierArg<V>>, names: Seq<Seq<char>>) -> Seq<V> {
    Seq::new(names.len(), |k: int| declared(args, names[k])->0)
}

/// What one attribute says of a registration that requires `names`: nothing,
/// the declared values, or why it makes the registration an error.
pub open spec fn attribute_verdict<V>(attribute: Attribute<V>, names: Seq<Seq<char>>) -> Option<
    Result<Seq<V>, ConfigErrorView>,
> {
    match attribute {
        Attribute::Other => None,
        Attribute::Malformed => Some(Err(ConfigErrorView::MalformedArguments)),
        Attribute::List(args) => match first_unknown(args@, names) {
            Some(name) => Some(Err(ConfigErrorView::UnknownArgument(name))),
            None => if declares_all(args@, names) {
                Some(Ok(declarations(args@, names)))
            } else {
                None
            },
        },
    }
}

/// What the attributes say of a registration that requires `names`: the
/// verdict of the first attribute that has one.
pub open spec fn verdict<V>(attributes: Seq<Attribute<V>>, names: Seq<Seq<char>>) -> Result<
    Seq<V>,
    ConfigErrorView,
>
    decreases attributes.len(),
{
    if attributes.len() == 0 {
        Err(ConfigErrorView::MissingAttribute)
    } else {
        match attribute_verdict(attributes[0], names) {
            Some(decided) => decided,
            None => verdict(attributes.drop_first(), names),
        }
    }
}

/// No name occurs twice.
pub open spec fn distinct_names(names: Seq<Seq<char>>) -> bool {
    forall|j: int, k: int| 0 <= j < k < names.len() ==> #[trigger] names[j] != #[trigger] names[k]
}

/// Where `name` stands in `names`.
fn name_slot(names: &Vec<String>, name: &String) -> (slot: Option<usize>)
    ensures
        match slot {
            Some(k) => k < names.len() && names[k as int]@ == name@,
            None => !texts(names@).contains(name@),
        },
{
    let mut k: usize = 0;
    while k < names.len()
        invariant
            k <= names.len(),
            forall|j: int| 0 <= j < k ==> names[j]@ != name@,
        decreases names.len() - k,
    {
        if names[k] == *name {
            return Some(k);
        }
        k += 1;
    }
    None
}

/// Sorts the values of the arguments by the names that they declare.
fn collect<V>(args: Vec<EventModifierArg<V>>, names: &Vec<String>) -> (found: Result<
    Vec<Option<V>>,
    String,
>)
    requires
        distinct_names(texts(names@)),
    ensures
        match found {
            Ok(slots) => {
                &&& first_unknown(args@, texts(names@)) is None
                &&& slots@.len() == names@.len()
                &&& forall|k: int|
                    0 <= k < names@.len() ==> #[trigger] slots@[k] == declared(args@, names@[k]@)
            },
            Err(name) => first_unknown(args@, texts(names@)) == Some(name@),
        },
{
    let mut slots: Vec<Option<V>> = Vec::new();
    while slots.len() < names.len()
        invariant
            slots@.len() <= names@.len(),
            forall|k: int| 0 <= k < slots@.len() ==> (#[trigger] slots@[k]) is None,
        decreases names.len() - slots.len(),
    {
        slots.push(None);
    }
    let mut unknown: Option<String> = None;
    let mut rest = args;
    assert(args@.skip(rest@.len() as int) =~= Seq::empty());
    while rest.len() > 0
        invariant
            distinct_names(texts(names@)),
            rest@.len() <= args@.len(),
            rest@ == args@.take(rest@.len() as int),
            slots@.len() == names@.len(),
            forall|k: int|
                0 <= k < names@.len() ==> #[trigger] slots@[k] == declared(
                    args@.skip(rest@.len() as int),
                    names@[k]@,
                ),
            match unknown {
                Some(name) => first_unknown(args@.skip(rest@.len() as int), texts(names@)) == Some(
                    name@,
                ),
                None => first_unknown(args@.skip(rest@.len() as int), texts(names@)) is None,
            },
        decreases rest@.len(),
    {
        let ghost behind = args@.skip(rest@.len() as int);
        let ghost here = rest@.len() - 1;
        let EventModifierArg { name, value } = rest.pop().unwrap();
        proof {
            assert(args@.skip(here).drop_first() =~= behind);
            assert(args@.skip(here)[0] == args@[here]);
            assert(rest@ =~= args@.take(here));
        }
        let ghost before = slots@;
        match name_slot(names, &name) {
            Some(k) => {
                if slots[k].is_none() {
                    slots.set(k, Some(value));
                }
                proof {
                    assert(texts(names@)[k as int] == name@);
                    assert forall|j: int| 0 <= j < names@.len() implies #[trigger] slots@[j]
                        == declared(args@.skip(here), names@[j]@) by {
                        assert(before[j] == declared(behind, names@[j]@));
                        if j != k {
                            assert(texts(names@)[j] != texts(names@)[k as int]);
                        }
                    }
                }
            },
            None => {
                unknown = Some(name);
                proof {
                    assert forall|j: int| 0 <= j < names@.len() implies #[trigger] slots@[j]
                        == declared(args@.skip(here), names@[j]@) by {
                        assert(before[j] == declared(behind, names@[j]@));
                        assert(texts(names@)[j] == names@[j]@);
                    }
                }
            },
        }
    }
    assert(args@.skip(0) =~= args@);
    match unknown {
        Some(name) => Err(name),
        None => Ok(slots),
    }
}

/// The values of the slots, if every slot is filled.
fn filled<V>(slots: Vec<Option<V>>) -> (values: Option<Vec<V>>)
    ensures
        match values {
            Some(values) => {
                &&& values@.len() == slots@.len()
                &&& forall|k: int|
                    0 <= k < slots@.len() ==> slots@[k] == Some(#[trigger] values@[k])
            },
            None => exists|k: int| 0 <= k < slots@.len() && (#[trigger] slots@[k]) is None,
        },
{
    let mut rest = slots;
    let mut reversed: Vec<V> = Vec::new();
    while rest.len() > 0
        invariant
            rest@.len() <= slots@.len(),
            rest@ == slots@.take(rest@.len() as int),
            reversed@.len() == slots@.len() - rest@.len(),
            forall|k: int|
                0 <= k < reversed@.len() ==> slots@[slots@.len() - 1 - k] == Some(
                    #[trigger] reversed@[k],
                ),
        decreases rest@.len(),
    {
        let ghost here = rest@.len() - 1;
        let last = rest.pop().unwrap();
        assert(rest@ =~= slots@.take(here));
        match last {
            Some(value) => {
                reversed.push(value);
            },
            None => {
                assert(slots@[here] is None);
                return None;
            },
        }
    }
    let mut values: Vec<V> = Vec::new();
    while reversed.len() > 0
        invariant
            values@.len() + reversed@.len() == slots@.len(),
            forall|k: int|
                0 <= k < reversed@.len() ==> slots@[slots@.len() - 1 - k] == Some(
                    #[trigger] reversed@[k],
                ),
            forall|k: int| 0 <= k < values@.len() ==> slots@[k] == Some(#[trigger] values@[k]),
        decreases reversed@.len(),
    {
        let ghost top = reversed@.len() - 1;
        let value = reversed.pop().unwrap();
        assert(slots@[slots@.len() - 1 - top] == Some(value));
        values.push(value);
    }
    Some(values)
}

/// Finds the declaration among the attributes of a registration that requires
/// `names`.
fn decide<V>(attributes: Vec<Attribute<V>>, names: &Vec<String>) -> (decided: Result<
    Vec<V>,
    ConfigError,
>)
    requires
        distinct_names(texts(names@)),
    ensures
        match decided {
            Ok(values) => verdict(attributes@, texts(names@)) == Ok::<Seq<V>, ConfigErrorView>(
                values@,
            ),
            Err(error) => verdict(attributes@, texts(names@)) == Err::<Seq<V>, ConfigErrorView>(
                error@,
            ),
        },
{
    let mut rest = attributes;
    while rest.len() > 0
        invariant
            distinct_names(texts(names@)),
            verdict(rest@, texts(names@)) == verdict(attributes@, texts(names@)),
        decreases rest@.len(),
    {
        let ghost all = rest@;
        let first = rest.remove(0);
        assert(rest@ =~= all.drop_first());
        assert(first == all[0]);
        match first {
            Attribute::Other => {},
            Attribute::Malformed => {
                return Err(ConfigError::MalformedArguments);
            },
            Attribute::List(args) => {
                let ghost listed = args@;
                match collect(args, names) {
                    Err(name) => {
                        return Err(ConfigError::UnknownArgument(name));
                    },
                    Ok(slots) => {
                        match filled(slots) {
                            Some(values) => {
                                proof {
                                    assert(declares_all(listed, texts(names@))) by {
                                        assert forall|k: int| 0 <= k < names@.len() implies (
                                        #[trigger] declared(listed, texts(names@)[k])) is Some by {
                                            assert(slots@[k] == Some(values@[k]));
                                        }
                                    }
                                    assert(values@ =~= declarations(listed, texts(names@))) by {
                                        assert forall|k: int| 0 <= k < names@.len() implies values@[k]
                                            == declarations(listed, texts(names@))[k] by {
                                            assert(slots@[k] == Some(values@[k]));
                                        }
                                    }
                                }
                                return Ok(values);
                            },
                            None => {
                                proof {
                                    let k = choose|k: int|
                                        0 <= k < slots@.len() && (#[trigger] slots@[k]) is None;
                                    assert(declared(listed, texts(names@)[k]) is None);
                                }
                            },
                        }
                    },
                }
            },
        }
    }
    Err(ConfigError::MissingAttribute)
}

/// What a context for spawning declares: the data component whose arrival
/// is dispatched, and the callback that spawns.
#[derive(Debug, PartialEq, Eq)]
pub struct EventModifierAttributes<V> {
    pub component: V,
    pub spawner: V,
}

/// The names that a context for spawning must declare.
pub open spec fn spawn_context_names() -> Seq<Seq<char>> {
    seq!["component"@, "spawner"@]
}

fn spawn_context_name_list() -> (names: Vec<String>)
    ensures
        texts(names@) == spawn_context_names(),
        distinct_names(texts(names@)),
{
    let mut names: Vec<String> = Vec::new();
    names.push(String::from_str("component"));
    names.push(String::from_str("spawner"));
    proof {
        reveal_strlit("component");
        reveal_strlit("spawner");
        assert(texts(names@) =~= spawn_context_names());
        assert("component"@[0] != "spawner"@[0]);
    }
    names
}

/// Reads what a context for spawning declares from its attributes.
///
/// The first attribute that has a verdict decides. A list that does not read
/// as arguments, or that has an argument of an unknown name, makes the
/// registration an error; a list that declares both `component` and `spawner`
/// gives the declaration. Where an attribute declares a name more than once,
/// the last value counts.
pub fn parse_attributes<V>(attributes: Vec<Attribute<V>>) -> (parsed: Result<
    EventModifierAttributes<V>,
    ConfigError,
>)
    ensures
        match parsed {
            Ok(declaration) => verdict(attributes@, spawn_context_names()) == Ok::<
                Seq<V>,
                ConfigErrorView,
            >(seq![declaration.component, declaration.spawner]),
            Err(error) => verdict(attributes@, spawn_context_names()) == Err::<
                Seq<V>,
                ConfigErrorView,
            >(error@),
        },
{
    let names = spawn_context_name_list();
    match decide(attributes, &names) {
        Err(error) => Err(error),
        Ok(values) => {
            let mut values = values;
            let ghost all = values@;
            proof {
                lemma_verdict_length(attributes@, spawn_context_names());
            }
            let spawner = values.pop().unwrap();
            let component = values.pop().unwrap();
            assert(all =~= seq![component, spawner]);
            Ok(EventModifierAttributes { component, spawner })
        },
    }
}

/// A declaration holds one value for each required name.
pub proof fn lemma_verdict_length<V>(attributes: Seq<Attribute<V>>, names: Seq<Seq<char>>)
    ensures
        verdict(attributes, names) matches Ok(values) ==> values.len() == names.len(),
    decreases attributes.len(),
{
    if attributes.len() > 0 {
        lemma_verdict_length(attributes.drop_first(), names);
    }
}

/// What a modifier pipeline declares: the component that carries its
/// modifiers, its three event kinds, and the kind of its priorities.
#[derive(Debug, PartialEq, Eq)]
pub struct PipelineKinds<V> {
    pub component: V,
    pub input: V,
    pub metadata: V,
    pub output: V,
    pub priority: V,
}

/// The names that a modifier pipeline must declare.
pub open spec fn pipeline_names() -> Seq<Seq<char>> {
    seq!["component"@, "input"@, "metadata"@, "output"@, "priority"@]
}

fn pipeline_name_list() -> (names: Vec<String>)
    ensures
        texts(names@) == pipeline_names(),
        distinct_names(texts(names@)),
{
    let mut names: Vec<String> = Vec::new();
    names.push(String::from_str("component"));
    names.push(String::from_str("input"));
    names.push(String::from_str("metadata"));
    names.push(String::from_str("output"));
    names.push(String::from_str("priority"));
    proof {
        reveal_strlit("component");
        reveal_strlit("input");
        reveal_strlit("metadata");
        reveal_strlit("output");
        reveal_strlit("priority");
        assert(texts(names@) =~= pipeline_names());
        assert("component"@[0] == 'c');
        assert("input"@[0] == 'i');
        assert("metadata"@[0] == 'm');
        assert("output"@[0] == 'o');
        assert("priority"@[0] == 'p');
    }
    names
}

/// Reads what a modifier pipeline declares from its attributes.
///
/// The first attribute that has a verdict decides. A list that does not read
/// as arguments, or that has an argument of an unknown name, makes the
/// registration an error; a list that declares all of `component`, `input`,
/// `metadata`, `output` and `priority` gives the declaration. Where an
/// attribute declares a name more than once, the last value counts.
pub fn parse_pipeline_attributes<V>(attributes: Vec<Attribute<V>>) -> (parsed: Result<
    PipelineKinds<V>,
    ConfigError,
>)
    ensures
        match parsed {
            Ok(kinds) => verdict(attributes@, pipeline_names()) == Ok::<Seq<V>, ConfigErrorView>(
                seq![kinds.component, kinds.input, kinds.metadata, kinds.output, kinds.priority],
            ),
            Err(error) => verdict(attributes@, pipeline_names()) == Err::<Seq<V>, ConfigErrorView>(
                error@,
            ),
        },
{
    let names = pipeline_name_list();
    match decide(attributes, &names) {
        Err(error) => Err(error),
        Ok(values) => {
            let mut values = values;
            let ghost all = values@;
            proof {
                lemma_verdict_length(attributes@, pipeline_names());
            }
            let priority = values.pop().unwrap();
            let output = values.pop().unwrap();
            let metadata = values.pop().unwrap();
            let input = values.pop().unwrap();
            let component = values.pop().unwrap();
            assert(all =~= seq![component, input, metadata, output, priority]);
            Ok(PipelineKinds { component, input, metadata, output, priority })
        },
    }
}

} // verus!
