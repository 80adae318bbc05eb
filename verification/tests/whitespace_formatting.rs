#![allow(dead_code)]
#![allow(unused_imports)]

use std::collections::{BTreeMap, BTreeSet};

use serde_dbgfmt::de::Shape;
use serde_dbgfmt::lex::TokenKind;
use serde_dbgfmt::number::Sign;
use serde_dbgfmt::{Deserializer, Error};

/// A type that reads itself with the steps of the grammar.
trait Decode: Sized {
    fn decode(de: &mut Deserializer) -> Result<Self, Error>;
}

fn from_str<T: Decode>(text: &str) -> Result<T, Error> {
    let mut de = Deserializer::new(text);
    let value = T::decode(&mut de)?;
    de.end()?;
    Ok(value)
}

impl Decode for bool {
    fn decode(de: &mut Deserializer) -> Result<Self, Error> {
        de.deserialize_bool()
    }
}

impl Decode for u8 {
    fn decode(de: &mut Deserializer) -> Result<Self, Error> {
        de.deserialize_u8()
    }
}

impl Decode for u16 {
    fn decode(de: &mut Deserializer) -> Result<Self, Error> {
        de.deserialize_u16()
    }
}

impl Decode for u32 {
    fn decode(de: &mut Deserializer) -> Result<Self, Error> {
        de.deserialize_u32()
    }
}

impl Decode for u64 {
    fn decode(de: &mut Deserializer) -> Result<Self, Error> {
        de.deserialize_u64()
    }
}

impl Decode for u128 {
    fn decode(de: &mut Deserializer) -> Result<Self, Error> {
        de.deserialize_u128()
    }
}

impl Decode for i8 {
    fn decode(de: &mut Deserializer) -> Result<Self, Error> {
        de.deserialize_i8()
    }
}

impl Decode for i16 {
    fn decode(de: &mut Deserializer) -> Result<Self, Error> {
        de.deserialize_i16()
    }
}

impl Decode for i32 {
    fn decode(de: &mut Deserializer) -> Result<Self, Error> {
        de.deserialize_i32()
    }
}

impl Decode for i64 {
    fn decode(de: &mut Deserializer) -> Result<Self, Error> {
        de.deserialize_i64()
    }
}

impl Decode for i128 {
    fn decode(de: &mut Deserializer) -> Result<Self, Error> {
        de.deserialize_i128()
    }
}

impl Decode for f64 {
    fn decode(de: &mut Deserializer) -> Result<Self, Error> {
        let float = de.parse_float()?;
        let value = match float.kind {
            TokenKind::Float => float
                .value
                .parse::<f64>()
                .map_err(|e| Error::custom(&format!("invalid float literal `{}`: {e}", float.span)))?,
            _ => f64::NAN,
        };
        Ok(match float.sign {
            Sign::Positive => value,
            Sign::Negative => -value,
        })
    }
}

impl Decode for f32 {
    fn decode(de: &mut Deserializer) -> Result<Self, Error> {
        let float = de.parse_float()?;
        let value = match float.kind {
            TokenKind::Float => float
                .value
                .parse::<f32>()
                .map_err(|e| Error::custom(&format!("invalid float literal `{}`: {e}", float.span)))?,
            _ => f32::NAN,
        };
        Ok(match float.sign {
            Sign::Positive => value,
            Sign::Negative => -value,
        })
    }
}

impl Decode for char {
    fn decode(de: &mut Deserializer) -> Result<Self, Error> {
        de.deserialize_char()
    }
}

impl Decode for String {
    fn decode(de: &mut Deserializer) -> Result<Self, Error> {
        de.deserialize_str()
    }
}

impl Decode for () {
    fn decode(de: &mut Deserializer) -> Result<Self, Error> {
        de.deserialize_unit()
    }
}

impl<T: Decode> Decode for Option<T> {
    fn decode(de: &mut Deserializer) -> Result<Self, Error> {
        if de.deserialize_option()? {
            let value = T::decode(de)?;
            de.end_option()?;
            Ok(Some(value))
        } else {
            Ok(None)
        }
    }
}

impl<T: Decode> Decode for Box<T> {
    fn decode(de: &mut Deserializer) -> Result<Self, Error> {
        T::decode(de).map(Box::new)
    }
}

impl<T: Decode> Decode for Vec<T> {
    fn decode(de: &mut Deserializer) -> Result<Self, Error> {
        let opened = de.deserialize_seq()?;
        let mut items = Vec::new();
        while de.seq_next_element()? {
            items.push(T::decode(de)?);
            de.seq_end_element()?;
        }
        de.end_seq(opened)?;
        Ok(items)
    }
}

impl<T: Decode + Ord> Decode for BTreeSet<T> {
    fn decode(de: &mut Deserializer) -> Result<Self, Error> {
        Vec::<T>::decode(de).map(|items| items.into_iter().collect())
    }
}

impl<K: Decode + Ord, V: Decode> Decode for BTreeMap<K, V> {
    fn decode(de: &mut Deserializer) -> Result<Self, Error> {
        de.deserialize_map()?;
        let mut entries = BTreeMap::new();
        while de.map_next_key()? {
            let key = K::decode(de)?;
            de.map_begin_value()?;
            let value = V::decode(de)?;
            de.map_end_value()?;
            entries.insert(key, value);
        }
        de.end_map()?;
        Ok(entries)
    }
}

/// Reads the next element of a tuple, which has to be there.
fn read_element<T: Decode>(de: &mut Deserializer) -> Result<T, Error> {
    if !de.tuple_next_element()? {
        return Err(Error::custom("invalid length"));
    }
    let value = T::decode(de)?;
    de.tuple_end_element()?;
    Ok(value)
}

impl<A: Decode> Decode for (A,) {
    fn decode(de: &mut Deserializer) -> Result<Self, Error> {
        de.deserialize_tuple()?;
        let value = (read_element(de)?,);
        de.end_tuple()?;
        Ok(value)
    }
}

impl<A: Decode, B: Decode> Decode for (A, B) {
    fn decode(de: &mut Deserializer) -> Result<Self, Error> {
        de.deserialize_tuple()?;
        let value = (read_element(de)?, read_element(de)?);
        de.end_tuple()?;
        Ok(value)
    }
}

impl<A: Decode, B: Decode, C: Decode> Decode for (A, B, C) {
    fn decode(de: &mut Deserializer) -> Result<Self, Error> {
        de.deserialize_tuple()?;
        let value = (read_element(de)?, read_element(de)?, read_element(de)?);
        de.end_tuple()?;
        Ok(value)
    }
}

/// Reads the fields of a struct up to the closing brace, which stays unread.
fn read_fields(
    de: &mut Deserializer,
    mut field: impl FnMut(&mut Deserializer, &str) -> Result<(), Error>,
) -> Result<(), Error> {
    while let Some(key) = de.struct_next_key()? {
        de.struct_begin_value()?;
        field(de, &key)?;
        de.struct_end_value()?;
    }
    Ok(())
}

/// Reads a struct called `name`, field by field.
fn read_struct(
    de: &mut Deserializer,
    name: &str,
    field: impl FnMut(&mut Deserializer, &str) -> Result<(), Error>,
) -> Result<(), Error> {
    de.deserialize_struct(name)?;
    read_fields(de, field)?;
    de.end_struct()
}

/// Reads the value of the field `key` into `slot`.
fn read_field<T: Decode>(slot: &mut Option<T>, de: &mut Deserializer, key: &str) -> Result<(), Error> {
    if slot.is_some() {
        return Err(Error::custom(&format!("duplicate field `{key}`")));
    }
    *slot = Some(T::decode(de)?);
    Ok(())
}

/// The value of the field `key`, which has to have been read.
fn require<T>(slot: Option<T>, key: &str) -> Result<T, Error> {
    slot.ok_or_else(|| Error::custom(&format!("missing field `{key}`")))
}

/// Reads one value of whatever shape and drops it.
fn skip_value(de: &mut Deserializer) -> Result<(), Error> {
    match de.deserialize_any()? {
        Shape::Str => de.deserialize_str().map(drop),
        Shape::Char => de.deserialize_char().map(drop),
        Shape::Unsigned => de.deserialize_u64().map(drop),
        Shape::Signed => de.deserialize_i64().map(drop),
        Shape::Float => de.parse_float().map(drop),
        Shape::Bool => de.deserialize_bool().map(drop),
        Shape::Struct(name) => read_struct(de, &name, |de, _| skip_value(de)),
        Shape::TupleStruct(name) => {
            de.deserialize_tuple_struct(&name)?;
            while de.tuple_next_element()? {
                skip_value(de)?;
                de.tuple_end_element()?;
            }
            de.end_tuple()
        }
        Shape::UnitStruct(name) => de.deserialize_unit_struct(&name),
        Shape::Tuple => {
            de.deserialize_tuple()?;
            while de.tuple_next_element()? {
                skip_value(de)?;
                de.tuple_end_element()?;
            }
            de.end_tuple()
        }
        Shape::Mapping => {
            de.deserialize_map()?;
            while de.map_next_key()? {
                skip_value(de)?;
                de.map_begin_value()?;
                skip_value(de)?;
                de.map_end_value()?;
            }
            de.end_map()
        }
        Shape::Sequence => {
            let opened = de.deserialize_seq()?;
            while de.seq_next_element()? {
                skip_value(de)?;
                de.seq_end_element()?;
            }
            de.end_seq(opened)
        }
    }
}

/// A value of any shape, read and dropped.
#[derive(Debug)]
struct IgnoredAny;

impl Decode for IgnoredAny {
    fn decode(de: &mut Deserializer) -> Result<Self, Error> {
        skip_value(de).map(|_| IgnoredAny)
    }
}

#[derive(Debug, PartialEq)]
struct SimpleStruct {
    a: u32,
    b: String,
}

impl Decode for SimpleStruct {
    fn decode(de: &mut Deserializer) -> Result<Self, Error> {
        let (mut a, mut b) = (None, None);
        read_struct(de, "SimpleStruct", |de, key| match key {
            "a" => read_field(&mut a, de, key),
            "b" => read_field(&mut b, de, key),
            _ => skip_value(de),
        })?;
        Ok(SimpleStruct {
            a: require(a, "a")?,
            b: require(b, "b")?,
        })
    }
}

#[derive(Debug, PartialEq)]
struct NestedStruct {
    inner: SimpleStruct,
    flag: bool,
}

impl Decode for NestedStruct {
    fn decode(de: &mut Deserializer) -> Result<Self, Error> {
        let (mut inner, mut flag) = (None, None);
        read_struct(de, "NestedStruct", |de, key| match key {
            "inner" => read_field(&mut inner, de, key),
            "flag" => read_field(&mut flag, de, key),
            _ => skip_value(de),
        })?;
        Ok(NestedStruct {
            inner: require(inner, "inner")?,
            flag: require(flag, "flag")?,
        })
    }
}

#[derive(Debug, PartialEq)]
enum TestEnum {
    Unit,
    Tuple(i32, String),
    Struct { x: f64, y: f64 },
}

impl Decode for TestEnum {
    fn decode(de: &mut Deserializer) -> Result<Self, Error> {
        let variant = de.deserialize_enum()?;
        match variant.as_str() {
            "Unit" => Ok(TestEnum::Unit),
            "Tuple" => {
                de.tuple_variant()?;
                let value = TestEnum::Tuple(read_element(de)?, read_element(de)?);
                de.end_tuple()?;
                Ok(value)
            }
            "Struct" => {
                let (mut x, mut y) = (None, None);
                de.struct_variant()?;
                read_fields(de, |de, key| match key {
                    "x" => read_field(&mut x, de, key),
                    "y" => read_field(&mut y, de, key),
                    _ => skip_value(de),
                })?;
                de.end_struct()?;
                Ok(TestEnum::Struct {
                    x: require(x, "x")?,
                    y: require(y, "y")?,
                })
            }
            other => Err(Error::custom(&format!("unknown variant `{other}`"))),
        }
    }
}

#[derive(Debug, PartialEq)]
struct CollectionStruct {
    vec: Vec<i32>,
    map: BTreeMap<String, i32>,
    set: BTreeSet<String>,
}

impl Decode for CollectionStruct {
    fn decode(de: &mut Deserializer) -> Result<Self, Error> {
        let (mut vec, mut map, mut set) = (None, None, None);
        read_struct(de, "CollectionStruct", |de, key| match key {
            "vec" => read_field(&mut vec, de, key),
            "map" => read_field(&mut map, de, key),
            "set" => read_field(&mut set, de, key),
            _ => skip_value(de),
        })?;
        Ok(CollectionStruct {
            vec: require(vec, "vec")?,
            map: require(map, "map")?,
            set: require(set, "set")?,
        })
    }
}

// Test various whitespace patterns in structs
#[test]
fn test_struct_with_various_whitespace() {
    // Normal formatting
    let input = r#"SimpleStruct { a: 42, b: "hello" }"#;
    let result: SimpleStruct = from_str(input).unwrap();
    assert_eq!(result.a, 42);
    assert_eq!(result.b, "hello");

    // Extra spaces around punctuation
    let input = r#"SimpleStruct  {  a  :  42  ,  b  :  "hello"  }"#;
    let result: SimpleStruct = from_str(input).unwrap();
    assert_eq!(result.a, 42);
    assert_eq!(result.b, "hello");

    // Mixed tabs and spaces
    let input = "SimpleStruct\t{\ta\t:\t42\t,\tb\t:\t\"hello\"\t}";
    let result: SimpleStruct = from_str(input).unwrap();
    assert_eq!(result.a, 42);
    assert_eq!(result.b, "hello");

    // Leading/trailing whitespace
    let input = r#"   SimpleStruct { a: 42, b: "hello" }   "#;
    let result: SimpleStruct = from_str(input).unwrap();
    assert_eq!(result.a, 42);
    assert_eq!(result.b, "hello");
}

#[test]
fn test_struct_with_newlines() {
    // Newlines between fields
    let input = r#"SimpleStruct {
        a: 42,
        b: "hello"
    }"#;
    let result: SimpleStruct = from_str(input).unwrap();
    assert_eq!(result.a, 42);
    assert_eq!(result.b, "hello");

    // Newlines in various places
    let input = r#"SimpleStruct
    {
        a:
            42,
        b:
            "hello"
    }"#;
    let result: SimpleStruct = from_str(input).unwrap();
    assert_eq!(result.a, 42);
    assert_eq!(result.b, "hello");
}

#[test]
fn test_struct_with_trailing_comma() {
    // Trailing comma after last field
    let input = r#"SimpleStruct { a: 42, b: "hello", }"#;
    let result: SimpleStruct = from_str(input).unwrap();
    assert_eq!(result.a, 42);
    assert_eq!(result.b, "hello");

    // Trailing comma with extra whitespace
    let input = r#"SimpleStruct { a: 42, b: "hello" ,   }"#;
    let result: SimpleStruct = from_str(input).unwrap();
    assert_eq!(result.a, 42);
    assert_eq!(result.b, "hello");
}

#[test]
fn test_nested_struct_whitespace() {
    let input = r#"NestedStruct {
        inner: SimpleStruct {
            a: 100,
            b: "nested"
        },
        flag: true
    }"#;
    let result: NestedStruct = from_str(input).unwrap();
    assert_eq!(result.inner.a, 100);
    assert_eq!(result.inner.b, "nested");
    assert_eq!(result.flag, true);

    // Compact nested struct
    let input = r#"NestedStruct{inner:SimpleStruct{a:100,b:"nested"},flag:true}"#;
    let result: NestedStruct = from_str(input).unwrap();
    assert_eq!(result.inner.a, 100);
    assert_eq!(result.inner.b, "nested");
    assert_eq!(result.flag, true);
}

#[test]
fn test_enum_whitespace_patterns() {
    // Unit variant
    let input = "Unit";
    let result: TestEnum = from_str(input).unwrap();
    assert_eq!(result, TestEnum::Unit);

    // Unit variant with whitespace
    let input = "  Unit  ";
    let result: TestEnum = from_str(input).unwrap();
    assert_eq!(result, TestEnum::Unit);

    // Tuple variant with various whitespace
    let input = "Tuple( 42 , \"test\" )";
    let result: TestEnum = from_str(input).unwrap();
    assert_eq!(result, TestEnum::Tuple(42, "test".to_string()));

    // Struct variant with whitespace
    let input = r#"Struct  {  x  :  1.5  ,  y  :  2.5  }"#;
    let result: TestEnum = from_str(input).unwrap();
    assert_eq!(result, TestEnum::Struct { x: 1.5, y: 2.5 });

    // Struct variant with trailing comma
    let input = r#"Struct { x: 1.5, y: 2.5, }"#;
    let result: TestEnum = from_str(input).unwrap();
    assert_eq!(result, TestEnum::Struct { x: 1.5, y: 2.5 });
}

#[test]
fn test_vector_whitespace_patterns() {
    // Normal vector
    let input = "[1, 2, 3, 4]";
    let result: Vec<i32> = from_str(input).unwrap();
    assert_eq!(result, vec![1, 2, 3, 4]);

    // Vector with extra spaces
    let input = "[ 1 , 2 , 3 , 4 ]";
    let result: Vec<i32> = from_str(input).unwrap();
    assert_eq!(result, vec![1, 2, 3, 4]);

    // Vector with trailing comma
    let input = "[1, 2, 3, 4,]";
    let result: Vec<i32> = from_str(input).unwrap();
    assert_eq!(result, vec![1, 2, 3, 4]);

    // Vector with newlines
    let input = r#"[
        1,
        2,
        3,
        4
    ]"#;
    let result: Vec<i32> = from_str(input).unwrap();
    assert_eq!(result, vec![1, 2, 3, 4]);

    // Empty vector
    let input = "[]";
    let result: Vec<i32> = from_str(input).unwrap();
    assert_eq!(result, Vec::<i32>::new());

    // Empty vector with whitespace
    let input = "[  ]";
    let result: Vec<i32> = from_str(input).unwrap();
    assert_eq!(result, Vec::<i32>::new());
}

#[test]
fn test_btreemap_whitespace_patterns() {
    // Normal BTreeMap formatting
    let input = r#"{"a": 1, "b": 2}"#;
    let result: BTreeMap<String, i32> = from_str(input).unwrap();
    let mut expected = BTreeMap::new();
    expected.insert("a".to_string(), 1);
    expected.insert("b".to_string(), 2);
    assert_eq!(result, expected);

    // BTreeMap with extra spaces
    let input = r#"{  "a"  :  1  ,  "b"  :  2  }"#;
    let result: BTreeMap<String, i32> = from_str(input).unwrap();
    assert_eq!(result, expected);

    // BTreeMap with trailing comma
    let input = r#"{"a": 1, "b": 2,}"#;
    let result: BTreeMap<String, i32> = from_str(input).unwrap();
    assert_eq!(result, expected);

    // BTreeMap with newlines
    let input = r#"{
        "a": 1,
        "b": 2
    }"#;
    let result: BTreeMap<String, i32> = from_str(input).unwrap();
    assert_eq!(result, expected);

    // Empty BTreeMap
    let input = "{}";
    let result: BTreeMap<String, i32> = from_str(input).unwrap();
    assert_eq!(result, BTreeMap::new());

    // Empty BTreeMap with whitespace
    let input = "{  }";
    let result: BTreeMap<String, i32> = from_str(input).unwrap();
    assert_eq!(result, BTreeMap::new());
}

#[test]
fn test_btreeset_whitespace_patterns() {
    // Normal BTreeSet formatting
    let input = r#"{"a", "b", "c"}"#;
    let result: BTreeSet<String> = from_str(input).unwrap();
    let mut expected = BTreeSet::new();
    expected.insert("a".to_string());
    expected.insert("b".to_string());
    expected.insert("c".to_string());
    assert_eq!(result, expected);

    // BTreeSet with extra spaces
    let input = r#"{  "a"  ,  "b"  ,  "c"  }"#;
    let result: BTreeSet<String> = from_str(input).unwrap();
    assert_eq!(result, expected);

    // BTreeSet with trailing comma
    let input = r#"{"a", "b", "c",}"#;
    let result: BTreeSet<String> = from_str(input).unwrap();
    assert_eq!(result, expected);

    // BTreeSet with newlines
    let input = r#"{
        "a",
        "b",
        "c"
    }"#;
    let result: BTreeSet<String> = from_str(input).unwrap();
    assert_eq!(result, expected);
}

#[test]
fn test_option_whitespace_patterns() {
    // Some variant with spaces
    let input = "Some( 42 )";
    let result: Option<i32> = from_str(input).unwrap();
    assert_eq!(result, Some(42));

    // None variant with spaces
    let input = "  None  ";
    let result: Option<i32> = from_str(input).unwrap();
    assert_eq!(result, None);

    // Nested Some with complex whitespace
    let input = r#"Some(  SimpleStruct  {  a:  42,  b:  "test"  }  )"#;
    let result: Option<SimpleStruct> = from_str(input).unwrap();
    assert_eq!(
        result,
        Some(SimpleStruct {
            a: 42,
            b: "test".to_string()
        })
    );
}

#[test]
fn test_tuple_whitespace_patterns() {
    // Normal tuple
    let input = "(1, 2, 3)";
    let result: (i32, i32, i32) = from_str(input).unwrap();
    assert_eq!(result, (1, 2, 3));

    // Tuple with extra spaces
    let input = "( 1 , 2 , 3 )";
    let result: (i32, i32, i32) = from_str(input).unwrap();
    assert_eq!(result, (1, 2, 3));

    // Tuple with trailing comma
    let input = "(1, 2, 3,)";
    let result: (i32, i32, i32) = from_str(input).unwrap();
    assert_eq!(result, (1, 2, 3));

    // Single element tuple (requires trailing comma)
    let input = "(42,)";
    let result: (i32,) = from_str(input).unwrap();
    assert_eq!(result, (42,));

    // Empty tuple (unit type)
    let input = "()";
    let result: () = from_str(input).unwrap();
    assert_eq!(result, ());
}

#[test]
fn test_string_with_whitespace_content() {
    // String containing spaces
    let input = r#""hello world""#;
    let result: String = from_str(input).unwrap();
    assert_eq!(result, "hello world");

    // String containing tabs and newlines
    let input = r#""hello\tworld\n""#;
    let result: String = from_str(input).unwrap();
    assert_eq!(result, "hello\tworld\n");

    // String with whitespace around it vs. in it
    let input = r#"  "hello world"  "#;
    let result: String = from_str(input).unwrap();
    assert_eq!(result, "hello world");
}

#[test]
fn test_compact_vs_pretty_formatting() {
    let expected = CollectionStruct {
        vec: vec![1, 2, 3],
        map: {
            let mut m = BTreeMap::new();
            m.insert("key1".to_string(), 1);
            m.insert("key2".to_string(), 2);
            m
        },
        set: {
            let mut s = BTreeSet::new();
            s.insert("item1".to_string());
            s.insert("item2".to_string());
            s
        },
    };

    // Compact format with simple values to avoid parsing issues
    let input = r#"CollectionStruct { vec: [1, 2, 3], map: {"key1": 1, "key2": 2}, set: {"item1", "item2"} }"#;
    let result: CollectionStruct = from_str(input).unwrap();
    assert_eq!(result, expected);

    // Pretty format with extensive whitespace
    let input = r#"CollectionStruct {
        vec: [
            1,
            2,
            3,
        ],
        map: {
            "key1": 1,
            "key2": 2,
        },
        set: {
            "item1",
            "item2",
        },
    }"#;
    let result: CollectionStruct = from_str(input).unwrap();
    assert_eq!(result, expected);
}

#[test]
fn test_mixed_whitespace_types() {
    // Mix of spaces, tabs, and newlines
    let input = "SimpleStruct\t{\n\ta:\t42,\n    b: \"hello\"\n}";
    let result: SimpleStruct = from_str(input).unwrap();
    assert_eq!(result.a, 42);
    assert_eq!(result.b, "hello");
}

#[test]
fn test_punctuation_whitespace() {
    // Test whitespace around various punctuation marks in different contexts

    // Struct with spaces around colons and commas
    let input = r#"SimpleStruct { a : 42 , b : "hello" }"#;
    let result: SimpleStruct = from_str(input).unwrap();
    assert_eq!(result.a, 42);
    assert_eq!(result.b, "hello");

    // Enum tuple variant with spaces around parentheses
    let input = r#"Tuple ( 42 , "test" )"#;
    let result: TestEnum = from_str(input).unwrap();
    assert_eq!(result, TestEnum::Tuple(42, "test".to_string()));
}

// Error case tests - these should fail to parse
#[test]
fn test_missing_comma_errors() {
    // Missing comma between struct fields should fail
    let input = r#"SimpleStruct { a: 42 b: "hello" }"#;
    let result: Result<SimpleStruct, Error> = from_str(input);
    assert!(matches!(result, Err(_)));

    // Missing comma between vector elements should fail
    let input = "[1 2 3]";
    let result: Result<Vec<i32>, Error> = from_str(input);
    assert!(matches!(result, Err(_)));

    // Missing comma between map entries should fail
    let input = r#"{"a": 1 "b": 2}"#;
    let result: Result<BTreeMap<String, i32>, Error> = from_str(input);
    assert!(matches!(result, Err(_)));
}

#[test]
fn test_invalid_whitespace_in_numbers() {
    // Space in the middle of a number should fail
    let input = "12 34";
    let result: Result<i32, Error> = from_str(input);
    assert!(matches!(result, Err(_)));

    // Tab in the middle of a float should fail
    let input = "12.34\t56";
    let result: Result<f64, Error> = from_str(input);
    assert!(matches!(result, Err(_)));
}

#[test]
fn test_invalid_whitespace_in_identifiers() {
    // Space in struct name should fail
    let input = r#"Simple Struct { a: 42, b: "hello" }"#;
    let result: Result<SimpleStruct, Error> = from_str(input);
    assert!(matches!(result, Err(_)));

    // Space in field name should fail
    let input = r#"SimpleStruct { a b: 42, c: "hello" }"#;
    let result: Result<SimpleStruct, Error> = from_str(input);
    assert!(matches!(result, Err(_)));
}

#[test]
fn whitespace_formatting_test_whitespace_only_input() {
    // Only whitespace should fail
    let input = "   \t\n   ";
    let result: Result<SimpleStruct, Error> = from_str(input);
    assert!(matches!(result, Err(_)));

    // Empty string should fail
    let input = "";
    let result: Result<SimpleStruct, Error> = from_str(input);
    assert!(matches!(result, Err(_)));
}

#[test]
fn test_extreme_whitespace_patterns() {
    // Very large amounts of whitespace
    let input = format!(
        "{}SimpleStruct{}{{{}a{}:{}42{},{}b{}:{}\"hello\"{}}}{}",
        " ".repeat(100), // leading
        " ".repeat(50),  // after struct name
        " ".repeat(30),  // after opening brace
        " ".repeat(20),  // after field name
        " ".repeat(15),  // after colon
        " ".repeat(25),  // after value
        " ".repeat(10),  // after comma
        " ".repeat(20),  // after field name
        " ".repeat(15),  // after colon
        " ".repeat(35),  // after value
        " ".repeat(40),  // before closing brace
    );
    let result: SimpleStruct = from_str(&input).unwrap();
    assert_eq!(result.a, 42);
    assert_eq!(result.b, "hello");
}

#[test]
fn test_nested_collections_with_whitespace() {
    // Vector of vectors with various whitespace
    let input = r#"[
        [ 1 , 2 ],
        [3,4],
        [  5  ,  6  ,  ]
    ]"#;
    let result: Vec<Vec<i32>> = from_str(input).unwrap();
    assert_eq!(result, vec![vec![1, 2], vec![3, 4], vec![5, 6]]);

    // Map with vector values
    let input = r#"{
        "first": [ 1, 2, 3 ],
        "second": [4,5,6,]
    }"#;
    let result: BTreeMap<String, Vec<i32>> = from_str(input).unwrap();
    let mut expected = BTreeMap::new();
    expected.insert("first".to_string(), vec![1, 2, 3]);
    expected.insert("second".to_string(), vec![4, 5, 6]);
    assert_eq!(result, expected);
}

#[test]
fn test_struct_with_all_whitespace_variations() {
    // Test a struct that exercises all whitespace patterns in one test
    let input = r#"
        NestedStruct    {
            inner   :   SimpleStruct   {
                a   :   999   ,
                b   :   "complex test"   ,
            }   ,
            flag   :   false   ,
        }
    "#;
    let result: NestedStruct = from_str(input).unwrap();
    assert_eq!(result.inner.a, 999);
    assert_eq!(result.inner.b, "complex test");
    assert_eq!(result.flag, false);
}
