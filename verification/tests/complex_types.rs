use zorsh_gen_rs::convert_str;

#[test]
fn test_nested_structs() {
    let input = r#"
        #[derive(BorshSerialize)]
        struct Address {
            street: String,
            city: String,
            country: String,
        }

        #[derive(BorshSerialize)]
        struct User {
            name: String,
            address: Address,
        }
    "#;

    let output = convert_str(input).unwrap();
    let expected = "import { b } from '@zorsh/zorsh';\n\
\n\
export const AddressSchema = b.struct({\n\
\x20   street: b.string(),\n\
\x20   city: b.string(),\n\
\x20   country: b.string()\n\
});\n\
\n\
export const UserSchema = b.struct({\n\
\x20   name: b.string(),\n\
\x20   address: AddressSchema\n\
});\n\
\n\
export {\n\
\x20   AddressSchema,\n\
\x20   UserSchema\n\
};\n";
    assert_eq!(output, expected);
}

#[test]
fn test_collections() {
    let input = r#"
        #[derive(BorshSerialize)]
        struct Item {
            id: u32,
            name: String,
        }

        #[derive(BorshSerialize)]
        struct Inventory {
            items: Vec<Item>,
            counts: HashMap<String, u32>,
            fixed_data: [u8; 32],
        }
    "#;

    let output = convert_str(input).unwrap();
    let expected = "import { b } from '@zorsh/zorsh';\n\
\n\
export const ItemSchema = b.struct({\n\
\x20   id: b.u32(),\n\
\x20   name: b.string()\n\
});\n\
\n\
export const InventorySchema = b.struct({\n\
\x20   items: b.vec(ItemSchema),\n\
\x20   counts: b.hashMap(b.string(), b.u32()),\n\
\x20   fixed_data: b.array(b.u8(), 32)\n\
});\n\
\n\
export {\n\
\x20   ItemSchema,\n\
\x20   InventorySchema\n\
};\n";
    assert_eq!(output, expected);
}

#[test]
fn test_complex_enums() {
    let input = r#"
        #[derive(BorshSerialize)]
        enum Event {
            Created { timestamp: u64 },
            Updated(String),
            Deleted,
        }

        #[derive(BorshSerialize)]
        struct EventLog {
            events: Vec<Event>,
        }
    "#;

    let output = convert_str(input).unwrap();
    let expected = "import { b } from '@zorsh/zorsh';\n\
\n\
export const EventSchema = b.enum({\n\
\x20   Created: b.struct({\n\
\x20       timestamp: b.u64()\n\
\x20   }),\n\
\x20   Updated: b.string(),\n\
\x20   Deleted: b.unit()\n\
});\n\
\n\
export const EventLogSchema = b.struct({\n\
\x20   events: b.vec(EventSchema)\n\
});\n\
\n\
export {\n\
\x20   EventSchema,\n\
\x20   EventLogSchema\n\
};\n";
    assert_eq!(output, expected);
}

#[test]
fn test_optional_and_nested_types() {
    let input = r#"
        #[derive(BorshSerialize)]
        struct Metadata {
            tags: Vec<String>,
            extra: Option<HashMap<String, Vec<u32>>>,
        }

        #[derive(BorshSerialize)]
        struct Document {
            id: String,
            metadata: Option<Metadata>,
        }
    "#;

    let output = convert_str(input).unwrap();
    let expected = "import { b } from '@zorsh/zorsh';\n\
\n\
export const MetadataSchema = b.struct({\n\
\x20   tags: b.vec(b.string()),\n\
\x20   extra: b.option(b.hashMap(b.string(), b.vec(b.u32())))\n\
});\n\
\n\
export const DocumentSchema = b.struct({\n\
\x20   id: b.string(),\n\
\x20   metadata: b.option(MetadataSchema)\n\
});\n\
\n\
export {\n\
\x20   MetadataSchema,\n\
\x20   DocumentSchema\n\
};\n";
    assert_eq!(output, expected);
}

#[test]
fn enum_variant_shapes_in_declaration_order() {
    let input = r#"
        #[derive(BorshSerialize)]
        enum Shape {
            Nothing,
            One(u8),
            Pair(u8, String),
            Named { x: u32, y: u32 },
        }
    "#;
    let output = convert_str(input).unwrap();
    let expected = "export const ShapeSchema = b.enum({\n\
\x20   Nothing: b.unit(),\n\
\x20   One: b.u8(),\n\
\x20   Pair: b.struct({\n\
\x20       : b.u8(),\n\
\x20       : b.string()\n\
\x20   }),\n\
\x20   Named: b.struct({\n\
\x20       x: b.u32(),\n\
\x20       y: b.u32()\n\
\x20   })\n\
});";
    assert!(output.contains(expected));
}
