use zorsh_gen_rs::{
    EnumInfo, EnumVariant, FieldInfo, ImportSource, ModuleImports, StructInfo, TypeDependencies,
    TypeKind, ZorshGenerator,
};

fn field(name: &str, kind: TypeKind) -> FieldInfo {
    FieldInfo {
        name: name.to_string(),
        type_kind: kind,
    }
}

fn prim(name: &str) -> TypeKind {
    TypeKind::Primitive(name.to_string())
}

fn empty() -> ZorshGenerator {
    ZorshGenerator::new(vec![], vec![])
}

#[test]
fn schema_expression_of_each_kind() {
    let g = empty();
    assert_eq!(g.type_to_zorsh(&prim("u8")), "b.u8()");
    assert_eq!(g.type_to_zorsh(&prim("f64")), "b.f64()");
    assert_eq!(g.type_to_zorsh(&TypeKind::String), "b.string()");
    assert_eq!(
        g.type_to_zorsh(&TypeKind::Struct("User".to_string(), "m::User".to_string())),
        "UserSchema"
    );
    assert_eq!(
        g.type_to_zorsh(&TypeKind::Enum("Kind".to_string(), "m::Kind".to_string())),
        "KindSchema"
    );
    assert_eq!(
        g.type_to_zorsh(&TypeKind::Vec(Box::new(prim("u16")))),
        "b.vec(b.u16())"
    );
    assert_eq!(
        g.type_to_zorsh(&TypeKind::Option(Box::new(TypeKind::String))),
        "b.option(b.string())"
    );
    assert_eq!(
        g.type_to_zorsh(&TypeKind::HashMap(
            Box::new(TypeKind::String),
            Box::new(TypeKind::Vec(Box::new(prim("i32"))))
        )),
        "b.hashMap(b.string(), b.vec(b.i32()))"
    );
}

#[test]
fn array_length_is_written_in_decimal() {
    let g = empty();
    let array = |n: usize| TypeKind::Array(Box::new(prim("u8")), n);
    assert_eq!(g.type_to_zorsh(&array(0)), "b.array(b.u8(), 0)");
    assert_eq!(g.type_to_zorsh(&array(7)), "b.array(b.u8(), 7)");
    assert_eq!(g.type_to_zorsh(&array(10)), "b.array(b.u8(), 10)");
    assert_eq!(g.type_to_zorsh(&array(32)), "b.array(b.u8(), 32)");
    assert_eq!(g.type_to_zorsh(&array(1905)), "b.array(b.u8(), 1905)");
    assert_eq!(
        g.type_to_zorsh(&array(usize::MAX)),
        format!("b.array(b.u8(), {})", usize::MAX)
    );
}

#[test]
fn struct_binding() {
    let g = empty();
    let info = StructInfo {
        name: "User".to_string(),
        module: "m".to_string(),
        fields: vec![field("name", TypeKind::String), field("age", prim("u32"))],
    };
    assert_eq!(
        g.generate_struct(&info),
        "export const UserSchema = b.struct({\n    name: b.string(),\n    age: b.u32()\n});"
    );
    let bare = StructInfo {
        name: "Bare".to_string(),
        module: "m".to_string(),
        fields: vec![],
    };
    assert_eq!(g.generate_struct(&bare), "export const BareSchema = b.struct({\n\n});");
}

#[test]
fn enum_binding_by_variant_shape() {
    let g = empty();
    let info = EnumInfo {
        name: "Event".to_string(),
        module: "m".to_string(),
        variants: vec![
            EnumVariant {
                name: "Deleted".to_string(),
                fields: None,
            },
            EnumVariant {
                name: "Updated".to_string(),
                fields: Some(vec![field("", TypeKind::String)]),
            },
            EnumVariant {
                name: "Created".to_string(),
                fields: Some(vec![field("at", prim("u64")), field("by", TypeKind::String)]),
            },
            EnumVariant {
                name: "Single".to_string(),
                fields: Some(vec![field("only", prim("u8"))]),
            },
            EnumVariant {
                name: "Hollow".to_string(),
                fields: Some(vec![]),
            },
        ],
    };
    assert_eq!(
        g.generate_enum(&info),
        "export const EventSchema = b.enum({\n\
\x20   Deleted: b.unit(),\n\
\x20   Updated: b.string(),\n\
\x20   Created: b.struct({\n\
\x20       at: b.u64(),\n\
\x20       by: b.string()\n\
\x20   }),\n\
\x20   Single: b.struct({\n\
\x20       only: b.u8()\n\
\x20   }),\n\
\x20   Hollow: b.struct({\n\
\n\
\x20   })\n\
});"
    );
    let none = EnumInfo {
        name: "Never".to_string(),
        module: "m".to_string(),
        variants: vec![],
    };
    assert_eq!(g.generate_enum(&none), "export const NeverSchema = b.enum({\n\n});");
}

fn model() -> ZorshGenerator {
    ZorshGenerator::new(
        vec![
            StructInfo {
                name: "User".to_string(),
                module: "app::model".to_string(),
                fields: vec![field(
                    "id",
                    TypeKind::Struct("Id".to_string(), "util::Id".to_string()),
                )],
            },
            StructInfo {
                name: "Id".to_string(),
                module: "util".to_string(),
                fields: vec![field("raw", prim("u64"))],
            },
        ],
        vec![EnumInfo {
            name: "Role".to_string(),
            module: "app::model".to_string(),
            variants: vec![EnumVariant {
                name: "Admin".to_string(),
                fields: None,
            }],
        }],
    )
}

#[test]
fn module_of_a_type() {
    let g = model();
    assert_eq!(g.get_type_module("app::model::User"), "app::model");
    assert_eq!(g.get_type_module("app::model::Role"), "app::model");
    assert_eq!(g.get_type_module("util::Id"), "util");
    assert_eq!(g.get_type_module("else::where::Thing"), "else::where");
    assert_eq!(g.get_type_module("Thing"), "Thing");
}

#[test]
fn exports_of_a_module() {
    let g = model();
    assert_eq!(g.get_module_exports("app::model"), "UserSchema, RoleSchema");
    assert_eq!(g.get_module_exports("util"), "IdSchema");
    assert_eq!(g.get_module_exports("none"), "");
}

#[test]
fn module_text_with_imports() {
    let g = model();
    let dependencies = TypeDependencies {
        ordered_types: vec![
            "util::Id".to_string(),
            "app::model::Role".to_string(),
            "app::model::User".to_string(),
        ],
        module_imports: vec![
            ModuleImports {
                module: "other".to_string(),
                sources: vec![ImportSource {
                    module: "util".to_string(),
                    type_names: vec!["Id".to_string()],
                }],
            },
            ModuleImports {
                module: "app::model".to_string(),
                sources: vec![
                    ImportSource {
                        module: "util".to_string(),
                        type_names: vec!["Id".to_string(), "Stamp".to_string()],
                    },
                    ImportSource {
                        module: "Other::Deep::Place".to_string(),
                        type_names: vec!["Thing".to_string()],
                    },
                ],
            },
        ],
    };
    assert_eq!(
        g.generate_module("app::model", &dependencies).unwrap(),
        "import { b } from '@zorsh/zorsh';\n\
import { IdSchema, StampSchema } from './util';\n\
import { ThingSchema } from './other/deep/place';\n\
\n\
export const RoleSchema = b.enum({\n\
\x20   Admin: b.unit()\n\
});\n\
\n\
export const UserSchema = b.struct({\n\
\x20   id: IdSchema\n\
});\n\
\n\
export {\n\
\x20   RoleSchema,\n\
\x20   UserSchema\n\
};\n"
    );
    // A module without an entry imports nothing but the schema library.
    assert_eq!(
        g.generate_module("util", &dependencies).unwrap(),
        "import { b } from '@zorsh/zorsh';\n\
\n\
export const IdSchema = b.struct({\n\
\x20   raw: b.u64()\n\
});\n\
\n\
export {\n\
\x20   IdSchema\n\
};\n"
    );
    assert_eq!(
        g.generate_module("empty", &TypeDependencies {
            ordered_types: vec![],
            module_imports: vec![],
        })
        .unwrap(),
        "import { b } from '@zorsh/zorsh';\n\n"
    );
}

#[test]
fn undeclared_type_of_the_module_is_exported_without_a_binding() {
    let g = empty();
    let dependencies = TypeDependencies {
        ordered_types: vec!["ghost::Thing".to_string()],
        module_imports: vec![],
    };
    assert_eq!(
        g.generate_module("ghost", &dependencies).unwrap(),
        "import { b } from '@zorsh/zorsh';\n\nexport {\n    ThingSchema\n};\n"
    );
}
