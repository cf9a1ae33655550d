use zorsh_gen_rs::convert_str;

#[test]
fn test_primitive_types() {
    let input = r#"
        #[derive(BorshSerialize)]
        struct Numbers {
            u8_val: u8,
            u16_val: u16,
            u32_val: u32,
            u64_val: u64,
            i8_val: i8,
            i16_val: i16,
            i32_val: i32,
            i64_val: i64,
            f32_val: f32,
            f64_val: f64,
        }
    "#;

    let output = convert_str(input).unwrap();
    let expected = "import { b } from '@zorsh/zorsh';\n\
\n\
export const NumbersSchema = b.struct({\n\
\x20   u8_val: b.u8(),\n\
\x20   u16_val: b.u16(),\n\
\x20   u32_val: b.u32(),\n\
\x20   u64_val: b.u64(),\n\
\x20   i8_val: b.i8(),\n\
\x20   i16_val: b.i16(),\n\
\x20   i32_val: b.i32(),\n\
\x20   i64_val: b.i64(),\n\
\x20   f32_val: b.f32(),\n\
\x20   f64_val: b.f64()\n\
});\n\
\n\
export {\n\
\x20   NumbersSchema\n\
};\n";
    assert_eq!(output, expected);
}

#[test]
fn test_string_types() {
    let input = r#"
        #[derive(BorshSerialize)]
        struct User {
            name: String,
            email: String,
        }
    "#;

    let output = convert_str(input).unwrap();
    let expected = "import { b } from '@zorsh/zorsh';\n\
\n\
export const UserSchema = b.struct({\n\
\x20   name: b.string(),\n\
\x20   email: b.string()\n\
});\n\
\n\
export {\n\
\x20   UserSchema\n\
};\n";
    assert_eq!(output, expected);
}

#[test]
fn test_unit_structs() {
    let input = r#"
        #[derive(BorshSerialize)]
        struct Empty;

        #[derive(BorshSerialize)]
        struct EmptyBraces {}
    "#;

    let output = convert_str(input).unwrap();
    let expected = "import { b } from '@zorsh/zorsh';\n\
\n\
export const EmptySchema = b.struct({\n\
\n\
});\n\
\n\
export const EmptyBracesSchema = b.struct({\n\
\n\
});\n\
\n\
export {\n\
\x20   EmptySchema,\n\
\x20   EmptyBracesSchema\n\
};\n";
    assert_eq!(output, expected);
}

#[test]
fn test_basic_enums() {
    let input = r#"
        #[derive(BorshSerialize)]
        enum Status {
            Active,
            Inactive,
            Pending,
        }
    "#;

    let output = convert_str(input).unwrap();
    let expected = "import { b } from '@zorsh/zorsh';\n\
\n\
export const StatusSchema = b.enum({\n\
\x20   Active: b.unit(),\n\
\x20   Inactive: b.unit(),\n\
\x20   Pending: b.unit()\n\
});\n\
\n\
export {\n\
\x20   StatusSchema\n\
};\n";
    assert_eq!(output, expected);
}
