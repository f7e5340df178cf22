use esotereel::ffi_string::{OwnedString, OwnedStringArray};
use esotereel::field_value::{
    CFieldValue, CFieldValueArray, CFieldValueMap, CFieldValueMapEntry, CFieldValueTag, FieldMap,
    FieldValue, FieldValueError, RgbaColor,
};

fn map_of(entries: Vec<(&str, FieldValue)>) -> FieldMap {
    let mut m = FieldMap::new();
    for (k, v) in entries {
        m.insert(k.to_string(), v);
    }
    m
}

fn sample() -> FieldValue {
    FieldValue::Dict(map_of(vec![
        ("zeta", FieldValue::Color(RgbaColor { r: 1, g: 2, b: 3, a: 4 })),
        ("alpha", FieldValue::Bool(true)),
        ("beta", FieldValue::Array(vec![FieldValue::Int(-3), FieldValue::Float(0x4009_21FB_5444_2D18)])),
        ("gamma", FieldValue::Path(vec!["/a/b".to_string(), "c".to_string()])),
        ("inner", FieldValue::Dict(map_of(vec![("y", FieldValue::Int(1)), ("x", FieldValue::Int(2))]))),
    ]))
}

fn same(a: &FieldValue, b: &FieldValue) -> bool {
    match (a, b) {
        (FieldValue::Bool(x), FieldValue::Bool(y)) => x == y,
        (FieldValue::Int(x), FieldValue::Int(y)) => x == y,
        (FieldValue::Float(x), FieldValue::Float(y)) => x == y,
        (FieldValue::Enum(x), FieldValue::Enum(y)) => x == y,
        (FieldValue::String(x), FieldValue::String(y)) => x == y,
        (FieldValue::Path(x), FieldValue::Path(y)) => x == y,
        (FieldValue::Color(x), FieldValue::Color(y)) => x == y,
        (FieldValue::Array(x), FieldValue::Array(y)) => {
            x.len() == y.len() && x.iter().zip(y.iter()).all(|(p, q)| same(p, q))
        },
        (FieldValue::Dict(x), FieldValue::Dict(y)) => {
            x.len() == y.len()
                && x.entries().iter().zip(y.entries().iter()).all(|(p, q)| p.0 == q.0 && same(&p.1, &q.1))
        },
        _ => false,
    }
}

#[test]
fn a_value_reads_back_from_its_c_form() {
    let v = sample();
    let c = CFieldValue::wrap_ffi(&v);
    assert_eq!(c.tag(), CFieldValueTag::Dict);
    let back = c.unwrap_ffi().ok().unwrap();
    assert!(same(&v, &back));
    let s = FieldValue::String("héllo".to_string());
    assert!(same(&CFieldValue::wrap_ffi(&s).unwrap_ffi().ok().unwrap(), &s));
    let e = FieldValue::Enum("Linear".to_string());
    assert!(same(&CFieldValue::wrap_ffi(&e).unwrap_ffi().ok().unwrap(), &e));
}

#[test]
fn booleans_travel_as_zero_or_one() {
    assert!(matches!(CFieldValue::wrap_ffi(&FieldValue::Bool(true)), CFieldValue::Bool(1)));
    assert!(matches!(CFieldValue::wrap_ffi(&FieldValue::Bool(false)), CFieldValue::Bool(0)));
    assert!(matches!(CFieldValue::Bool(7).unwrap_ffi(), Ok(FieldValue::Bool(true))));
}

#[test]
fn map_entries_read_back_in_key_order_with_the_last_value_of_a_key() {
    let entry = |k: &str, v: i64| CFieldValueMapEntry {
        key: OwnedString::from_string(k.to_string()),
        value: CFieldValue::Int(v),
    };
    let c = CFieldValue::Dict(CFieldValueMap {
        entries: Some(vec![entry("b", 1), entry("a", 2), entry("b", 3)]),
        len: 3,
    });
    let back = c.unwrap_ffi().ok().unwrap();
    let expected = FieldValue::Dict(map_of(vec![("a", FieldValue::Int(2)), ("b", FieldValue::Int(3))]));
    assert!(same(&back, &expected));
}

#[test]
fn a_map_keeps_its_keys_in_order_and_each_once() {
    let mut m = FieldMap::new();
    m.insert("m".to_string(), FieldValue::Int(1));
    m.insert("b".to_string(), FieldValue::Int(2));
    m.insert("z".to_string(), FieldValue::Int(3));
    m.insert("b".to_string(), FieldValue::Int(4));
    m.insert("ba".to_string(), FieldValue::Int(5));
    let keys: Vec<&str> = m.entries().iter().map(|e| e.0.as_str()).collect();
    assert_eq!(keys, vec!["b", "ba", "m", "z"]);
    assert_eq!(m.len(), 4);
    assert!(same(&m.entries()[0].1, &FieldValue::Int(4)));
}

#[test]
fn a_map_written_in_any_order_reads_back_sorted() {
    let v = FieldValue::Dict(map_of(vec![("c", FieldValue::Int(3)), ("a", FieldValue::Int(1)), ("b", FieldValue::Int(2))]));
    let c = CFieldValue::wrap_ffi(&v);
    match &c {
        CFieldValue::Dict(m) => {
            let keys: Vec<&str> = m.entries.as_ref().unwrap().iter().map(|e| e.key.as_str().ok().unwrap()).collect();
            assert_eq!(keys, vec!["a", "b", "c"]);
        },
        _ => panic!("expected a map"),
    }
    assert!(same(&c.unwrap_ffi().ok().unwrap(), &v));
}

#[test]
fn null_arrays_read_as_empty_only_with_length_zero() {
    let empty = CFieldValue::Array(CFieldValueArray { items: None, len: 0 });
    assert!(same(&empty.unwrap_ffi().ok().unwrap(), &FieldValue::Array(vec![])));
    let bad = CFieldValue::Array(CFieldValueArray { items: None, len: 2 });
    match bad.unwrap_ffi() {
        Err(FieldValueError::NullArray(m)) => assert_eq!(m, "CFieldValue array has null pointer with non-zero length"),
        _ => panic!("expected an error"),
    }
    let bad_path = CFieldValue::Path(OwnedStringArray { items: None, len: 1 });
    match bad_path.unwrap_ffi() {
        Err(FieldValueError::NullArray(m)) => assert_eq!(m, "Path array has null pointer with non-zero length"),
        _ => panic!("expected an error"),
    }
    let bad_map = CFieldValue::Dict(CFieldValueMap { entries: None, len: 1 });
    match bad_map.unwrap_ffi() {
        Err(FieldValueError::NullArray(m)) => assert_eq!(m, "CFieldValue map has null pointer with non-zero length"),
        _ => panic!("expected an error"),
    }
}

#[test]
fn bad_strings_are_errors() {
    match CFieldValue::String(OwnedString::zero()).unwrap_ffi() {
        Err(FieldValueError::NullPointer(m)) => assert_eq!(m, "OwnedString pointer is null"),
        _ => panic!("expected an error"),
    }
    let invalid = OwnedString { data: Some(vec![0xc3]), len: 1 };
    assert!(matches!(CFieldValue::Enum(invalid).unwrap_ffi(), Err(FieldValueError::InvalidUtf8)));
    let arr = CFieldValue::Array(CFieldValueArray {
        items: Some(vec![CFieldValue::Int(1), CFieldValue::String(OwnedString::zero())]),
        len: 2,
    });
    assert!(matches!(arr.unwrap_ffi(), Err(FieldValueError::NullPointer(_))));
}
