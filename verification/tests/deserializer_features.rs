#![allow(dead_code)]
#![allow(unused_imports)]

use std::collections::{BTreeMap, BTreeSet};

use serde_dbgfmt::de::Shape;
use serde_dbgfmt::lex::TokenKind;
use serde_dbgfmt::number::Sign;
use serde_dbgfmt::{Deserializer, Error};

/// A type that reads itself with the steps of the grammar.
trait Decode: Sized {
    fn decode(de: &mut Deserializer) -> Result<Self, Error>;
}

fn from_str<T: Decode>(text: &str) -> Result<T, Error> {
    let mut de = Deserializer::new(text);
    let value = T::decode(&mut de)?;
    de.end()?;
    Ok(value)
}

impl Decode for bool {
    fn decode(de: &mut Deserializer) -> Result<Self, Error> {
        de.deserialize_bool()
    }
}

impl Decode for u8 {
    fn decode(de: &mut Deserializer) -> Result<Self, Error> {
        de.deserialize_u8()
    }
}

impl Decode for u16 {
    fn decode(de: &mut Deserializer) -> Result<Self, Error> {
        de.deserialize_u16()
    }
}

impl Decode for u32 {
    fn decode(de: &mut Deserializer) -> Result<Self, Error> {
        de.deserialize_u32()
    }
}

impl Decode for u64 {
    fn decode(de: &mut Deserializer) -> Result<Self, Error> {
        de.deserialize_u64()
    }
}

impl Decode for u128 {
    fn decode(de: &mut Deserializer) -> Result<Self, Error> {
        de.deserialize_u128()
    }
}

impl Decode for i8 {
    fn decode(de: &mut Deserializer) -> Result<Self, Error> {
        de.deserialize_i8()
    }
}

impl Decode for i16 {
    fn decode(de: &mut Deserializer) -> Result<Self, Error> {
        de.deserialize_i16()
    }
}

impl Decode for i32 {
    fn decode(de: &mut Deserializer) -> Result<Self, Error> {
        de.deserialize_i32()
    }
}

impl Decode for i64 {
    fn decode(de: &mut Deserializer) -> Result<Self, Error> {
        de.deserialize_i64()
    }
}

impl Decode for i128 {
    fn decode(de: &mut Deserializer) -> Result<Self, Error> {
        de.deserialize_i128()
    }
}

impl Decode for f64 {
    fn decode(de: &mut Deserializer) -> Result<Self, Error> {
        let float = de.parse_float()?;
        let value = match float.kind {
            TokenKind::Float => float
                .value
                .parse::<f64>()
                .map_err(|e| Error::custom(&format!("invalid float literal `{}`: {e}", float.span)))?,
            _ => f64::NAN,
        };
        Ok(match float.sign {
            Sign::Positive => value,
            Sign::Negative => -value,
        })
    }
}

impl Decode for f32 {
    fn decode(de: &mut Deserializer) -> Result<Self, Error> {
        let float = de.parse_float()?;
        let value = match float.kind {
            TokenKind::Float => float
                .value
                .parse::<f32>()
                .map_err(|e| Error::custom(&format!("invalid float literal `{}`: {e}", float.span)))?,
            _ => f32::NAN,
        };
        Ok(match float.sign {
            Sign::Positive => value,
            Sign::Negative => -value,
        })
    }
}

impl Decode for char {
    fn decode(de: &mut Deserializer) -> Result<Self, Error> {
        de.deserialize_char()
    }
}

impl Decode for String {
    fn decode(de: &mut Deserializer) -> Result<Self, Error> {
        de.deserialize_str()
    }
}

impl Decode for () {
    fn decode(de: &mut Deserializer) -> Result<Self, Error> {
        de.deserialize_unit()
    }
}

impl<T: Decode> Decode for Option<T> {
    fn decode(de: &mut Deserializer) -> Result<Self, Error> {
        if de.deserialize_option()? {
            let value = T::decode(de)?;
            de.end_option()?;
            Ok(Some(value))
        } else {
            Ok(None)
        }
    }
}

impl<T: Decode> Decode for Box<T> {
    fn decode(de: &mut Deserializer) -> Result<Self, Error> {
        T::decode(de).map(Box::new)
    }
}

impl<T: Decode> Decode for Vec<T> {
    fn decode(de: &mut Deserializer) -> Result<Self, Error> {
        let opened = de.deserialize_seq()?;
        let mut items = Vec::new();
        while de.seq_next_element()? {
            items.push(T::decode(de)?);
            de.seq_end_element()?;
        }
        de.end_seq(opened)?;
        Ok(items)
    }
}

impl<T: Decode + Ord> Decode for BTreeSet<T> {
    fn decode(de: &mut Deserializer) -> Result<Self, Error> {
        Vec::<T>::decode(de).map(|items| items.into_iter().collect())
    }
}

impl<K: Decode + Ord, V: Decode> Decode for BTreeMap<K, V> {
    fn decode(de: &mut Deserializer) -> Result<Self, Error> {
        de.deserialize_map()?;
        let mut entries = BTreeMap::new();
        while de.map_next_key()? {
            let key = K::decode(de)?;
            de.map_begin_value()?;
            let value = V::decode(de)?;
            de.map_end_value()?;
            entries.insert(key, value);
        }
        de.end_map()?;
        Ok(entries)
    }
}

/// Reads the next element of a tuple, which has to be there.
fn read_element<T: Decode>(de: &mut Deserializer) -> Result<T, Error> {
    if !de.tuple_next_element()? {
        return Err(Error::custom("invalid length"));
    }
    let value = T::decode(de)?;
    de.tuple_end_element()?;
    Ok(value)
}

impl<A: Decode> Decode for (A,) {
    fn decode(de: &mut Deserializer) -> Result<Self, Error> {
        de.deserialize_tuple()?;
        let value = (read_element(de)?,);
        de.end_tuple()?;
        Ok(value)
    }
}

impl<A: Decode, B: Decode> Decode for (A, B) {
    fn decode(de: &mut Deserializer) -> Result<Self, Error> {
        de.deserialize_tuple()?;
        let value = (read_element(de)?, read_element(de)?);
        de.end_tuple()?;
        Ok(value)
    }
}

impl<A: Decode, B: Decode, C: Decode> Decode for (A, B, C) {
    fn decode(de: &mut Deserializer) -> Result<Self, Error> {
        de.deserialize_tuple()?;
        let value = (read_element(de)?, read_element(de)?, read_element(de)?);
        de.end_tuple()?;
        Ok(value)
    }
}

/// Reads the fields of a struct up to the closing brace, which stays unread.
fn read_fields(
    de: &mut Deserializer,
    mut field: impl FnMut(&mut Deserializer, &str) -> Result<(), Error>,
) -> Result<(), Error> {
    while let Some(key) = de.struct_next_key()? {
        de.struct_begin_value()?;
        field(de, &key)?;
        de.struct_end_value()?;
    }
    Ok(())
}

/// Reads a struct called `name`, field by field.
fn read_struct(
    de: &mut Deserializer,
    name: &str,
    field: impl FnMut(&mut Deserializer, &str) -> Result<(), Error>,
) -> Result<(), Error> {
    de.deserialize_struct(name)?;
    read_fields(de, field)?;
    de.end_struct()
}

/// Reads the value of the field `key` into `slot`.
fn read_field<T: Decode>(slot: &mut Option<T>, de: &mut Deserializer, key: &str) -> Result<(), Error> {
    if slot.is_some() {
        return Err(Error::custom(&format!("duplicate field `{key}`")));
    }
    *slot = Some(T::decode(de)?);
    Ok(())
}

/// The value of the field `key`, which has to have been read.
fn require<T>(slot: Option<T>, key: &str) -> Result<T, Error> {
    slot.ok_or_else(|| Error::custom(&format!("missing field `{key}`")))
}

/// Reads one value of whatever shape and drops it.
fn skip_value(de: &mut Deserializer) -> Result<(), Error> {
    match de.deserialize_any()? {
        Shape::Str => de.deserialize_str().map(drop),
        Shape::Char => de.deserialize_char().map(drop),
        Shape::Unsigned => de.deserialize_u64().map(drop),
        Shape::Signed => de.deserialize_i64().map(drop),
        Shape::Float => de.parse_float().map(drop),
        Shape::Bool => de.deserialize_bool().map(drop),
        Shape::Struct(name) => read_struct(de, &name, |de, _| skip_value(de)),
        Shape::TupleStruct(name) => {
            de.deserialize_tuple_struct(&name)?;
            while de.tuple_next_element()? {
                skip_value(de)?;
                de.tuple_end_element()?;
            }
            de.end_tuple()
        }
        Shape::UnitStruct(name) => de.deserialize_unit_struct(&name),
        Shape::Tuple => {
            de.deserialize_tuple()?;
            while de.tuple_next_element()? {
                skip_value(de)?;
                de.tuple_end_element()?;
            }
            de.end_tuple()
        }
        Shape::Mapping => {
            de.deserialize_map()?;
            while de.map_next_key()? {
                skip_value(de)?;
                de.map_begin_value()?;
                skip_value(de)?;
                de.map_end_value()?;
            }
            de.end_map()
        }
        Shape::Sequence => {
            let opened = de.deserialize_seq()?;
            while de.seq_next_element()? {
                skip_value(de)?;
                de.seq_end_element()?;
            }
            de.end_seq(opened)
        }
    }
}

/// A value of any shape, read and dropped.
#[derive(Debug)]
struct IgnoredAny;

impl Decode for IgnoredAny {
    fn decode(de: &mut Deserializer) -> Result<Self, Error> {
        skip_value(de).map(|_| IgnoredAny)
    }
}

#[derive(Debug, PartialEq)]
struct SimpleStruct {
    name: String,
    age: u32,
}

impl Decode for SimpleStruct {
    fn decode(de: &mut Deserializer) -> Result<Self, Error> {
        let (mut name, mut age) = (None, None);
        read_struct(de, "SimpleStruct", |de, key| match key {
            "name" => read_field(&mut name, de, key),
            "age" => read_field(&mut age, de, key),
            _ => skip_value(de),
        })?;
        Ok(SimpleStruct {
            name: require(name, "name")?,
            age: require(age, "age")?,
        })
    }
}

#[derive(Debug, PartialEq)]
struct ComplexStruct {
    id: u64,
    data: Vec<i32>,
    meta: Option<String>,
}

impl Decode for ComplexStruct {
    fn decode(de: &mut Deserializer) -> Result<Self, Error> {
        let (mut id, mut data, mut meta) = (None, None, None);
        read_struct(de, "ComplexStruct", |de, key| match key {
            "id" => read_field(&mut id, de, key),
            "data" => read_field(&mut data, de, key),
            "meta" => read_field(&mut meta, de, key),
            _ => skip_value(de),
        })?;
        Ok(ComplexStruct {
            id: require(id, "id")?,
            data: require(data, "data")?,
            meta: meta.unwrap_or(None),
        })
    }
}

#[derive(Debug, PartialEq)]
enum TestEnum {
    Unit,
    Tuple(i32, String),
    Struct { field: bool },
}

impl Decode for TestEnum {
    fn decode(de: &mut Deserializer) -> Result<Self, Error> {
        let variant = de.deserialize_enum()?;
        match variant.as_str() {
            "Unit" => Ok(TestEnum::Unit),
            "Tuple" => {
                de.tuple_variant()?;
                let value = TestEnum::Tuple(read_element(de)?, read_element(de)?);
                de.end_tuple()?;
                Ok(value)
            }
            "Struct" => {
                let mut field = None;
                de.struct_variant()?;
                read_fields(de, |de, key| match key {
                    "field" => read_field(&mut field, de, key),
                    _ => skip_value(de),
                })?;
                de.end_struct()?;
                Ok(TestEnum::Struct {
                    field: require(field, "field")?,
                })
            }
            other => Err(Error::custom(&format!("unknown variant `{other}`"))),
        }
    }
}

/// Test multiple sequential deserializations using the same deserializer
/// instance
#[test]
fn test_multiple_sequential_deserializations() {
    let input = r#"SimpleStruct { name: "Alice", age: 25 } ComplexStruct { id: 42, data: [1, 2, 3], meta: Some("test") }"#;
    let mut deserializer = Deserializer::new(input);

    // First deserialization
    let first: SimpleStruct =
        SimpleStruct::decode(&mut deserializer).expect("Failed to deserialize first struct");
    assert_eq!(
        first,
        SimpleStruct {
            name: "Alice".to_string(),
            age: 25
        }
    );

    // Second deserialization from the same deserializer
    let second: ComplexStruct =
        ComplexStruct::decode(&mut deserializer).expect("Failed to deserialize second struct");
    assert_eq!(
        second,
        ComplexStruct {
            id: 42,
            data: vec![1, 2, 3],
            meta: Some("test".to_string())
        }
    );

    // Verify we've consumed all input
    deserializer.end().expect("Expected end of input");
}

/// Test multiple values with different types in sequence
#[test]
fn test_mixed_type_sequential_deserialization() {
    let input = r#"42 "hello" true [1, 2, 3] Unit"#;
    let mut deserializer = Deserializer::new(input);

    let num: u32 = u32::decode(&mut deserializer).expect("Failed to deserialize number");
    assert_eq!(num, 42);

    let text: String = String::decode(&mut deserializer).expect("Failed to deserialize string");
    assert_eq!(text, "hello");

    let flag: bool = bool::decode(&mut deserializer).expect("Failed to deserialize bool");
    assert!(flag);

    let list: Vec<i32> =
        Vec::<i32>::decode(&mut deserializer).expect("Failed to deserialize vector");
    assert_eq!(list, vec![1, 2, 3]);

    let unit_enum: TestEnum =
        TestEnum::decode(&mut deserializer).expect("Failed to deserialize enum");
    assert_eq!(unit_enum, TestEnum::Unit);

    deserializer.end().expect("Expected end of input");
}

/// Test partial deserialization - stopping mid-stream and checking state
#[test]
fn test_partial_deserialization() {
    let input = r#"SimpleStruct { name: "Alice", age: 25 } ComplexStruct { id: 42, data: [1, 2, 3], meta: Some("test") }"#;
    let mut deserializer = Deserializer::new(input);

    // Deserialize only the first struct
    let first: SimpleStruct =
        SimpleStruct::decode(&mut deserializer).expect("Failed to deserialize first struct");
    assert_eq!(
        first,
        SimpleStruct {
            name: "Alice".to_string(),
            age: 25
        }
    );

    // Verify that end() fails because there's remaining input
    let end_result = deserializer.end();
    assert!(matches!(end_result, Err(_)));

    // Create a new deserializer for the remaining data since the first one might be
    // in an invalid state
    let remaining_input = r#"ComplexStruct { id: 42, data: [1, 2, 3], meta: Some("test") }"#;
    let mut deserializer2 = Deserializer::new(remaining_input);

    let second: ComplexStruct =
        ComplexStruct::decode(&mut deserializer2).expect("Failed to deserialize second struct");
    assert_eq!(
        second,
        ComplexStruct {
            id: 42,
            data: vec![1, 2, 3],
            meta: Some("test".to_string())
        }
    );

    // Now end() should succeed
    deserializer2
        .end()
        .expect("Expected successful end after consuming all input");
}

/// Test deserializer state validation with proper cleanup using end()
#[test]
fn test_deserializer_state_validation() {
    // A complete deserialization
    {
        let input = r#"SimpleStruct { name: "test", age: 30 }"#;
        let mut deserializer = Deserializer::new(input);

        let _result: SimpleStruct =
            SimpleStruct::decode(&mut deserializer).expect("Deserialization should succeed");

        // end() should succeed with no remaining input
        deserializer
            .end()
            .expect("End should succeed with complete input consumed");
    }

    // An incomplete deserialization - end() should fail
    {
        let input = r#"SimpleStruct { name: "test", age: 30 } "extra data""#;
        let mut deserializer = Deserializer::new(input);

        let _result: SimpleStruct =
            SimpleStruct::decode(&mut deserializer).expect("Deserialization should succeed");

        // end() should fail because there's extra data
        let end_result = deserializer.end();
        assert!(matches!(end_result, Err(_)));
    }

    // A whitespace-only remainder should be acceptable
    {
        let input = r#"SimpleStruct { name: "test", age: 30 }   "#;
        let mut deserializer = Deserializer::new(input);

        let _result: SimpleStruct =
            SimpleStruct::decode(&mut deserializer).expect("Deserialization should succeed");

        // The implementation should handle trailing whitespace properly
        deserializer
            .end()
            .expect("End should succeed with whitespace-only remainder");
    }
}

/// Test error propagation through the deserializer at various stages
#[test]
fn test_error_propagation() {
    // Test malformed input during initial parsing
    {
        let input = r#"SimpleStruct { name: "unclosed string, age: 30 }"#;
        let mut deserializer = Deserializer::new(input);

        let result = SimpleStruct::decode(&mut deserializer);
        assert!(matches!(result, Err(_)));
    }

    // Test type mismatch errors
    {
        let input = r#"SimpleStruct { name: 42, age: "not a number" }"#;
        let mut deserializer = Deserializer::new(input);

        let result = SimpleStruct::decode(&mut deserializer);
        assert!(matches!(result, Err(_)));
    }

    // Test missing field errors
    {
        let input = r#"SimpleStruct { name: "test" }"#;
        let mut deserializer = Deserializer::new(input);

        let result = SimpleStruct::decode(&mut deserializer);
        assert!(matches!(result, Err(_)));
    }

    // Test wrong struct name
    {
        let input = r#"WrongStruct { name: "test", age: 30 }"#;
        let mut deserializer = Deserializer::new(input);

        let result = SimpleStruct::decode(&mut deserializer);
        assert!(matches!(result, Err(_)));
    }
}

/// Test custom deserializer usage patterns
#[test]
fn test_custom_deserializer_patterns() {
    // Read the fields by hand, dropping the ones that are not asked for.
    fn visit_map(de: &mut Deserializer) -> Result<(String, u32), Error> {
        let mut name = None;
        let mut age = None;

        while let Some(key) = de.struct_next_key()? {
            de.struct_begin_value()?;
            match key.as_str() {
                "name" => {
                    if name.is_some() {
                        return Err(Error::custom("duplicate field `name`"));
                    }
                    name = Some(String::decode(de)?);
                }
                "age" => {
                    if age.is_some() {
                        return Err(Error::custom("duplicate field `age`"));
                    }
                    age = Some(u32::decode(de)?);
                }
                _ => {
                    let _: IgnoredAny = IgnoredAny::decode(de)?;
                }
            }
            de.struct_end_value()?;
        }

        let name = name.ok_or_else(|| Error::custom("missing field `name`"))?;
        let age = age.ok_or_else(|| Error::custom("missing field `age`"))?;
        Ok((name, age))
    }

    let input = r#"SimpleStruct { name: "Alice", age: 25 }"#;
    let mut deserializer = Deserializer::new(input);

    deserializer
        .deserialize_struct("SimpleStruct")
        .expect("Custom visitor should work");
    let result = visit_map(&mut deserializer).expect("Custom visitor should work");
    deserializer
        .end_struct()
        .expect("Custom visitor should work");

    assert_eq!(result, ("Alice".to_string(), 25));
    deserializer.end().expect("Should reach end successfully");
}

/// Test edge cases with deserializer lifecycle
#[test]
fn test_deserializer_lifecycle_edge_cases() {
    // Test empty input
    {
        let input = "";
        let mut deserializer = Deserializer::new(input);

        // Should immediately be at end
        deserializer.end().expect("Empty input should be valid");
    }

    // Test whitespace-only input
    {
        let input = "   \t\n  ";
        let mut deserializer = Deserializer::new(input);

        // Should immediately be at end (whitespace is ignored)
        deserializer
            .end()
            .expect("Whitespace-only input should be valid");
    }

    // Test calling end() multiple times
    {
        let input = r#"42"#;
        let mut deserializer = Deserializer::new(input);

        let _result: u32 = u32::decode(&mut deserializer).expect("Should deserialize number");

        deserializer.end().expect("First end() should succeed");

        // Calling end() again should also succeed (idempotent)
        deserializer
            .end()
            .expect("Second end() should also succeed");
    }

    // Test deserializing after successful end()
    {
        let input = r#"42"#;
        let mut deserializer = Deserializer::new(input);

        let _result: u32 = u32::decode(&mut deserializer).expect("Should deserialize number");

        deserializer.end().expect("End should succeed");

        // Trying to deserialize more should fail
        let result = u32::decode(&mut deserializer);
        assert!(matches!(result, Err(_)));
    }
}

/// Test deserializer with malformed input at various stages
#[test]
fn test_malformed_input_at_various_stages() {
    // Test malformed input at the beginning
    {
        let input = r#"{"#;
        let mut deserializer = Deserializer::new(input);

        let result = BTreeMap::<String, String>::decode(&mut deserializer);
        assert!(matches!(result, Err(_)));
    }

    // Test malformed input in the middle of parsing
    {
        let input = r#"SimpleStruct { name: "test", age:"#;
        let mut deserializer = Deserializer::new(input);

        let result = SimpleStruct::decode(&mut deserializer);
        assert!(matches!(result, Err(_)));
    }

    // Test malformed nested structures
    {
        let input = r#"ComplexStruct { id: 42, data: [1, 2, , meta: Some("test") }"#;
        let mut deserializer = Deserializer::new(input);

        let result = ComplexStruct::decode(&mut deserializer);
        assert!(matches!(result, Err(_)));
    }

    // Test invalid escape sequences in strings
    {
        let input = r#"SimpleStruct { name: "test\z", age: 30 }"#;
        let mut deserializer = Deserializer::new(input);

        let result = SimpleStruct::decode(&mut deserializer);
        assert!(matches!(result, Err(_)));
    }

    // Test invalid number formats
    {
        let input = r#"SimpleStruct { name: "test", age: 1.2.3 }"#;
        let mut deserializer = Deserializer::new(input);

        let result = SimpleStruct::decode(&mut deserializer);
        assert!(matches!(result, Err(_)));
    }

    // Test unexpected end of input during parsing
    {
        let input = r#"SimpleStruct { name: "test""#;
        let mut deserializer = Deserializer::new(input);

        let result = SimpleStruct::decode(&mut deserializer);
        assert!(matches!(result, Err(_)));
    }
}

/// Test deserializer state consistency across nested structures
#[test]
fn test_complex_nested_structure_state() {
    // Test basic nested structure parsing
    #[derive(Debug, PartialEq)]
    struct SimpleNested {
        inner: SimpleInner,
        list: Vec<String>,
    }

    impl Decode for SimpleNested {
        fn decode(de: &mut Deserializer) -> Result<Self, Error> {
            let (mut inner, mut list) = (None, None);
            read_struct(de, "SimpleNested", |de, key| match key {
                "inner" => read_field(&mut inner, de, key),
                "list" => read_field(&mut list, de, key),
                _ => skip_value(de),
            })?;
            Ok(SimpleNested {
                inner: require(inner, "inner")?,
                list: require(list, "list")?,
            })
        }
    }

    #[derive(Debug, PartialEq)]
    struct SimpleInner {
        name: String,
    }

    impl Decode for SimpleInner {
        fn decode(de: &mut Deserializer) -> Result<Self, Error> {
            let mut name = None;
            read_struct(de, "SimpleInner", |de, key| match key {
                "name" => read_field(&mut name, de, key),
                _ => skip_value(de),
            })?;
            Ok(SimpleInner {
                name: require(name, "name")?,
            })
        }
    }

    let nested = SimpleNested {
        inner: SimpleInner {
            name: "test".to_string(),
        },
        list: vec!["one".to_string(), "two".to_string()],
    };

    let debug_str = format!("{:?}", nested);
    let mut deserializer = Deserializer::new(&debug_str);

    let deserialized: SimpleNested =
        SimpleNested::decode(&mut deserializer).expect("Should deserialize nested structure");

    assert_eq!(nested, deserialized);
    deserializer.end().expect("Should reach end successfully");

    // Test deserializer behavior with multiple parse operations
    let input = r#"SimpleInner { name: "first" } SimpleInner { name: "second" }"#;
    let mut deserializer2 = Deserializer::new(input);

    let first: SimpleInner =
        SimpleInner::decode(&mut deserializer2).expect("Should deserialize first inner");
    assert_eq!(first.name, "first");

    let second: SimpleInner =
        SimpleInner::decode(&mut deserializer2).expect("Should deserialize second inner");
    assert_eq!(second.name, "second");

    deserializer2.end().expect("Should reach end successfully");
}

/// Test deserializer with various numeric edge cases
#[test]
fn test_numeric_edge_cases() {
    // Test basic maximum values (avoiding infinity which may not be supported)
    {
        let input = format!("{} {}", u64::MAX, i64::MIN);
        let mut deserializer = Deserializer::new(&input);

        let max_u64: u64 = u64::decode(&mut deserializer).expect("Should deserialize u64::MAX");
        assert_eq!(max_u64, u64::MAX);

        let min_i64: i64 = i64::decode(&mut deserializer).expect("Should deserialize i64::MIN");
        assert_eq!(min_i64, i64::MIN);

        deserializer.end().expect("Should reach end");
    }

    // Test special float values
    {
        let input = "NaN";
        let mut deserializer = Deserializer::new(input);

        let nan_val: f64 = f64::decode(&mut deserializer).expect("Should deserialize NaN");
        assert!(nan_val.is_nan());

        deserializer.end().expect("Should reach end");
    }

    // Test hexadecimal, octal, and binary numbers (these work in struct context)
    {
        #[derive(Debug, PartialEq)]
        struct NumericTest {
            hex: u32,
            oct: u32,
            bin: u32,
        }

        impl Decode for NumericTest {
            fn decode(de: &mut Deserializer) -> Result<Self, Error> {
                let (mut hex, mut oct, mut bin) = (None, None, None);
                read_struct(de, "NumericTest", |de, key| match key {
                    "hex" => read_field(&mut hex, de, key),
                    "oct" => read_field(&mut oct, de, key),
                    "bin" => read_field(&mut bin, de, key),
                    _ => skip_value(de),
                })?;
                Ok(NumericTest {
                    hex: require(hex, "hex")?,
                    oct: require(oct, "oct")?,
                    bin: require(bin, "bin")?,
                })
            }
        }

        let test_struct = NumericTest {
            hex: 0x42,
            oct: 0o52,     // 42 in decimal
            bin: 0b101010, // 42 in decimal
        };

        let debug_str = format!("{:?}", test_struct);
        let parsed: NumericTest =
            from_str(&debug_str).expect("Should deserialize numeric formats in struct");

        assert_eq!(parsed.hex, 0x42);
        assert_eq!(parsed.oct, 42);
        assert_eq!(parsed.bin, 42);
    }

    // Test regular float values
    {
        let input = "1.5 -2.5 0.0";
        let mut deserializer = Deserializer::new(input);

        let pos: f64 = f64::decode(&mut deserializer).expect("Should deserialize positive float");
        assert_eq!(pos, 1.5);

        let neg: f64 = f64::decode(&mut deserializer).expect("Should deserialize negative float");
        assert_eq!(neg, -2.5);

        let zero: f64 = f64::decode(&mut deserializer).expect("Should deserialize zero");
        assert_eq!(zero, 0.0);

        deserializer.end().expect("Should reach end");
    }
}

/// Test error handling across deserializer reuse scenarios
#[test]
fn test_error_handling_across_reuse() {
    // Test that errors don't corrupt the deserializer state for subsequent
    // operations
    let input = r#"SimpleStruct { name: "good", age: 25 } BadStruct { invalid: syntax } SimpleStruct { name: "also_good", age: 30 }"#;
    let mut deserializer = Deserializer::new(input);

    // First deserialization should succeed
    let first: SimpleStruct =
        SimpleStruct::decode(&mut deserializer).expect("First deserialization should succeed");
    assert_eq!(
        first,
        SimpleStruct {
            name: "good".to_string(),
            age: 25
        }
    );

    // Second deserialization should fail due to wrong struct name
    let second_result = SimpleStruct::decode(&mut deserializer);
    assert!(matches!(second_result, Err(_)));

    // The state is still there for error reporting, but nothing more can
    // be read after a failure in the middle of a struct.
    let _end_result = deserializer.end();
}

/// Test deserializer behavior with deeply nested structures
#[test]
fn test_deep_nesting() {
    // Create a deeply nested structure to test stack safety and state management
    #[derive(Debug, PartialEq)]
    enum NestedEnum {
        None,
        Some(Box<NestedEnum>),
    }

    impl Decode for NestedEnum {
        fn decode(de: &mut Deserializer) -> Result<Self, Error> {
            let variant = de.deserialize_enum()?;
            match variant.as_str() {
                "None" => Ok(NestedEnum::None),
                "Some" => {
                    de.newtype_variant()?;
                    let value = Box::<NestedEnum>::decode(de)?;
                    de.end_newtype_variant()?;
                    Ok(NestedEnum::Some(value))
                }
                other => Err(Error::custom(&format!("unknown variant `{other}`"))),
            }
        }
    }

    let input = "Some(Some(Some(Some(None))))";
    let mut deserializer = Deserializer::new(input);

    let result: NestedEnum =
        NestedEnum::decode(&mut deserializer).expect("Should handle deep nesting");

    // Verify the structure by pattern matching
    match result {
        NestedEnum::Some(level1) => match *level1 {
            NestedEnum::Some(level2) => match *level2 {
                NestedEnum::Some(level3) => match *level3 {
                    NestedEnum::Some(level4) => match *level4 {
                        NestedEnum::None => (),
                        _ => panic!("Expected None at deepest level"),
                    },
                    _ => panic!("Expected Some at level 4"),
                },
                _ => panic!("Expected Some at level 3"),
            },
            _ => panic!("Expected Some at level 2"),
        },
        _ => panic!("Expected Some at top level"),
    }

    deserializer.end().expect("Should reach end");
}
