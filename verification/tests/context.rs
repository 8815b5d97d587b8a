use bevy_replicon_spawn::config::{Attribute, ConfigError, EventModifierArg};
use bevy_replicon_spawn::context::{
    derive_spawn_context, remove_system_param_lifetimes, system_params, Data, DeriveInput, Field,
    FieldType, PathArguments, PathSegment, SpawnContextPlan, SystemParam,
};

type Ty = FieldType<&'static str>;

fn handle(kind: &str, args: &[&'static str]) -> Ty {
    FieldType::Path(vec![PathSegment {
        ident: kind.to_string(),
        arguments: PathArguments::AngleBracketed(args.to_vec()),
    }])
}

fn field(name: &str, ty: Ty) -> Field<&'static str> {
    Field { ident: Some(name.to_string()), ty }
}

fn param(name: &str, ty: Ty) -> SystemParam<&'static str> {
    SystemParam { ident: name.to_string(), ty }
}

fn declaration() -> Vec<Attribute<&'static str>> {
    vec![Attribute::List(vec![
        EventModifierArg { name: "component".to_string(), value: "SpawnPlayerEventComponent" },
        EventModifierArg { name: "spawner".to_string(), value: "spawner" },
    ])]
}

fn context(data: Data<&'static str>) -> DeriveInput<&'static str, &'static str> {
    DeriveInput { attrs: declaration(), ident: "SpawnPlayerEventContext".to_string(), data }
}

#[test]
fn res_loses_its_lifetime() {
    assert_eq!(
        remove_system_param_lifetimes(handle("Res", &["'w", "Time"])),
        Ok(handle("Res", &["Time"]))
    );
}

#[test]
fn res_mut_loses_its_lifetime() {
    assert_eq!(
        remove_system_param_lifetimes(handle("ResMut", &["'w", "Score"])),
        Ok(handle("ResMut", &["Score"]))
    );
}

#[test]
fn event_writer_loses_its_lifetime() {
    assert_eq!(
        remove_system_param_lifetimes(handle("EventWriter", &["'w", "Hit"])),
        Ok(handle("EventWriter", &["Hit"]))
    );
}

#[test]
fn query_loses_both_lifetimes() {
    assert_eq!(
        remove_system_param_lifetimes(handle("Query", &["'w", "'s", "&'static Health"])),
        Ok(handle("Query", &["&'static Health"]))
    );
    assert_eq!(
        remove_system_param_lifetimes(handle("Query", &["'w", "'s", "Entity", "With<Health>"])),
        Ok(handle("Query", &["Entity", "With<Health>"]))
    );
}

#[test]
fn handle_with_fewer_arguments_than_lifetimes_loses_them_all() {
    assert_eq!(remove_system_param_lifetimes(handle("Query", &["'w"])), Ok(handle("Query", &[])));
    assert_eq!(remove_system_param_lifetimes(handle("Query", &[])), Ok(handle("Query", &[])));
    assert_eq!(remove_system_param_lifetimes(handle("Res", &[])), Ok(handle("Res", &[])));
}

#[test]
fn handle_of_lifetimes_alone_keeps_no_argument() {
    assert_eq!(remove_system_param_lifetimes(handle("Res", &["'w"])), Ok(handle("Res", &[])));
    assert_eq!(
        remove_system_param_lifetimes(handle("Query", &["'w", "'s"])),
        Ok(handle("Query", &[]))
    );
}

#[test]
fn unknown_kind_of_handle_is_refused() {
    assert_eq!(
        remove_system_param_lifetimes(handle("Commands", &["'w", "'s"])),
        Err(ConfigError::UnsupportedFieldType)
    );
    assert_eq!(
        remove_system_param_lifetimes(handle("EventReader", &["'w", "'s", "Hit"])),
        Err(ConfigError::UnsupportedFieldType)
    );
    assert_eq!(
        remove_system_param_lifetimes(handle("query", &["'w", "'s", "Entity"])),
        Err(ConfigError::UnsupportedFieldType)
    );
}

#[test]
fn path_of_several_segments_is_refused() {
    let ty: Ty = FieldType::Path(vec![
        PathSegment { ident: "bevy_ecs".to_string(), arguments: PathArguments::Absent },
        PathSegment {
            ident: "Res".to_string(),
            arguments: PathArguments::AngleBracketed(vec!["'w", "Time"]),
        },
    ]);
    assert_eq!(remove_system_param_lifetimes(ty), Err(ConfigError::UnsupportedFieldType));
}

#[test]
fn path_of_no_segment_is_refused() {
    let ty: Ty = FieldType::Path(Vec::new());
    assert_eq!(remove_system_param_lifetimes(ty), Err(ConfigError::UnsupportedFieldType));
}

#[test]
fn handle_without_angle_brackets_is_refused() {
    let bare: Ty = FieldType::Path(vec![PathSegment {
        ident: "Res".to_string(),
        arguments: PathArguments::Absent,
    }]);
    assert_eq!(remove_system_param_lifetimes(bare), Err(ConfigError::UnsupportedFieldType));

    let called: Ty = FieldType::Path(vec![PathSegment {
        ident: "Query".to_string(),
        arguments: PathArguments::Parenthesized,
    }]);
    assert_eq!(remove_system_param_lifetimes(called), Err(ConfigError::UnsupportedFieldType));
}

#[test]
fn type_that_is_no_path_is_refused() {
    let ty: Ty = FieldType::Other;
    assert_eq!(remove_system_param_lifetimes(ty), Err(ConfigError::UnsupportedFieldType));
}

#[test]
fn fields_become_parameters_in_their_order() {
    let fields = vec![
        field("q_health", handle("Query", &["'w", "'s", "&'static Health"])),
        field("time", handle("Res", &["'w", "Time"])),
        field("hits", handle("EventWriter", &["'w", "Hit"])),
    ];
    assert_eq!(
        system_params(fields),
        Ok(vec![
            param("q_health", handle("Query", &["&'static Health"])),
            param("time", handle("Res", &["Time"])),
            param("hits", handle("EventWriter", &["Hit"])),
        ])
    );
}

#[test]
fn record_without_fields_has_no_parameters() {
    let fields: Vec<Field<&'static str>> = Vec::new();
    assert_eq!(system_params(fields), Ok(Vec::new()));
}

#[test]
fn context_of_one_query_is_planned() {
    let input = context(Data::Struct(vec![field(
        "q_health",
        handle("Query", &["'w", "'s", "&'static Health"]),
    )]));
    assert_eq!(
        derive_spawn_context(input),
        Ok(SpawnContextPlan {
            struct_name: "SpawnPlayerEventContext".to_string(),
            component: "SpawnPlayerEventComponent",
            spawner: "spawner",
            system_params: vec![param("q_health", handle("Query", &["&'static Health"]))],
        })
    );
}

#[test]
fn context_without_fields_is_planned() {
    let input = context(Data::Struct(Vec::new()));
    match derive_spawn_context(input) {
        Ok(plan) => assert!(plan.system_params.is_empty()),
        Err(error) => panic!("a record without fields is a context: {:?}", error),
    }
}

#[test]
fn enum_is_no_context() {
    assert_eq!(derive_spawn_context(context(Data::Enum)), Err(ConfigError::NotAStruct));
}

#[test]
fn union_is_no_context() {
    assert_eq!(derive_spawn_context(context(Data::Union)), Err(ConfigError::NotAStruct));
}

#[test]
fn field_without_a_name_is_refused() {
    let input = context(Data::Struct(vec![Field {
        ident: None,
        ty: handle("Res", &["'w", "Time"]),
    }]));
    assert_eq!(derive_spawn_context(input), Err(ConfigError::UnnamedField));
}

#[test]
fn field_that_is_no_handle_is_refused() {
    let input = context(Data::Struct(vec![
        field("time", handle("Res", &["'w", "Time"])),
        field("count", FieldType::Other),
    ]));
    assert_eq!(derive_spawn_context(input), Err(ConfigError::UnsupportedFieldType));
}

#[test]
fn missing_name_comes_before_the_type_of_the_same_field() {
    let input = context(Data::Struct(vec![Field { ident: None, ty: FieldType::Other }]));
    assert_eq!(derive_spawn_context(input), Err(ConfigError::UnnamedField));
}

#[test]
fn first_refused_field_decides() {
    let input = context(Data::Struct(vec![
        field("count", FieldType::Other),
        Field { ident: None, ty: handle("Res", &["'w", "Time"]) },
    ]));
    assert_eq!(derive_spawn_context(input), Err(ConfigError::UnsupportedFieldType));

    let input = context(Data::Struct(vec![
        Field { ident: None, ty: handle("Res", &["'w", "Time"]) },
        field("count", FieldType::Other),
    ]));
    assert_eq!(derive_spawn_context(input), Err(ConfigError::UnnamedField));
}

#[test]
fn attributes_are_read_before_the_shape() {
    let input: DeriveInput<&'static str, &'static str> = DeriveInput {
        attrs: Vec::new(),
        ident: "SpawnPlayerEventContext".to_string(),
        data: Data::Enum,
    };
    assert_eq!(derive_spawn_context(input), Err(ConfigError::MissingAttribute));

    let input: DeriveInput<&'static str, &'static str> = DeriveInput {
        attrs: vec![Attribute::List(vec![EventModifierArg {
            name: "input".to_string(),
            value: "Hit",
        }])],
        ident: "SpawnPlayerEventContext".to_string(),
        data: Data::Struct(vec![Field { ident: None, ty: FieldType::Other }]),
    };
    assert_eq!(
        derive_spawn_context(input),
        Err(ConfigError::UnknownArgument("input".to_string()))
    );
}

fn tokens_of(argument: &syn::GenericArgument) -> String {
    quote::ToTokens::to_token_stream(argument).to_string()
}

fn parsed(text: &str) -> syn::GenericArgument {
    match syn::parse_str(text) {
        Ok(argument) => argument,
        Err(error) => panic!("`{}` is a generic argument: {}", text, error),
    }
}

#[test]
fn arguments_may_be_parsed_syntax() {
    let query = FieldType::Path(vec![PathSegment {
        ident: "Query".to_string(),
        arguments: PathArguments::AngleBracketed(vec![
            parsed("'w"),
            parsed("'s"),
            parsed("(Entity, &'static Health)"),
            parsed("With<Player>"),
        ]),
    }]);
    let kept = match remove_system_param_lifetimes(query) {
        Ok(FieldType::Path(mut segments)) => match segments.pop() {
            Some(PathSegment { ident, arguments: PathArguments::AngleBracketed(kept) }) => {
                assert_eq!(ident, "Query");
                assert!(segments.is_empty());
                kept
            }
            _ => panic!("a handle has one segment with arguments in angle brackets"),
        },
        _ => panic!("a query is a handle"),
    };
    let kept: Vec<String> = kept.iter().map(tokens_of).collect();
    assert_eq!(
        kept,
        vec![tokens_of(&parsed("(Entity, &'static Health)")), tokens_of(&parsed("With<Player>"))]
    );
}
