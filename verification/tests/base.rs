use pdflib::base::{Dict, Name, Number, ObjRef, Object, Record, XRef, XRefType, Locator};
use pdflib::cc::CharClass;
use std::collections::BTreeMap;

fn check_cc() {
    assert_eq!(CharClass::of(b'\0'), CharClass::Space);
    assert_eq!(CharClass::of(b'\r'), CharClass::Space);
    assert_eq!(CharClass::of(b'\n'), CharClass::Space);
    assert_eq!(CharClass::of(b'\t'), CharClass::Space);
    assert_eq!(CharClass::of(b' '), CharClass::Space);
    assert_eq!(CharClass::of(b'('), CharClass::Delim);
    assert_eq!(CharClass::of(b')'), CharClass::Delim);
    assert_eq!(CharClass::of(b'{'), CharClass::Delim);
    assert_eq!(CharClass::of(b'}'), CharClass::Delim);
    assert_eq!(CharClass::of(b'['), CharClass::Delim);
    assert_eq!(CharClass::of(b']'), CharClass::Delim);
    assert_eq!(CharClass::of(b'<'), CharClass::Delim);
    assert_eq!(CharClass::of(b'>'), CharClass::Delim);
    assert_eq!(CharClass::of(b'/'), CharClass::Delim);
    assert_eq!(CharClass::of(b'%'), CharClass::Delim);
    assert_eq!(CharClass::of(b'a'), CharClass::Reg);
    assert_eq!(CharClass::of(b'\\'), CharClass::Reg);
    assert_eq!(CharClass::of(b'\''), CharClass::Reg);
    assert_eq!(CharClass::of(b'\"'), CharClass::Reg);
    assert_eq!(CharClass::of(b'\x08'), CharClass::Reg);
}

#[test]
fn base_test_cc() {
    check_cc();
}

#[test]
fn lib_test_cc() {
    check_cc();
}

fn real_lit(lit: &str) -> Object {
    Object::Number(Number::Real(lit.as_bytes().to_vec()))
}

fn text(v: Vec<u8>) -> String {
    String::from_utf8(v).unwrap()
}

#[test]
fn dict_test_dict() {
    let dict = Dict(vec![
        (Name::from(b"NKey"), Object::new_name(b"Nvalue")),
        (Name::from(b"IKey"), Object::Number(Number::Int(10))),
    ]);
    assert_eq!(dict.lookup(b"NKey"), Object::new_name(b"Nvalue"));
    assert_eq!(dict.lookup(b"IKey"), Object::Number(Number::Int(10)));
    assert_eq!(dict.lookup(b"Missing"), Object::Null);
}

fn check_display() {
    assert_eq!(text(real_lit("-1").format()), "-1");
    assert_eq!(text(real_lit("0.0000000000000001").format()), "0.0000000000000001");
    assert_eq!(text(Object::new_string(b"").format()), "()");
    assert_eq!(text(Object::new_string(b"\0\r\n\\").format()), "(\\000\\r\\n\\\\)");
    assert_eq!(text(Object::new_string(b"()").format()), "(\\(\\))");
    assert_eq!(text(Object::new_string(b"a\nb c").format()), "(a\\nb c)");
    assert_eq!(text(Object::new_name(b" A#/$*(%\n").format()), "/#20A#23#2F$*#28#25#0A");
    assert_eq!(
        text(Object::Array(vec![
            Object::Number(Number::Int(549)),
            real_lit("3.14"),
            Object::Bool(false),
            Object::new_string(b"Ralph"),
            Object::new_name(b"SomeName")
        ]).format()),
        "[ 549 3.14 false (Ralph) /SomeName ]"
    );
    assert_eq!(text(Object::Array(vec![Object::Array(vec![Object::Bool(true)])]).format()), "[ [ true ] ]");
    assert_eq!(
        text(Object::Dict(Dict(vec![
            (Name::from(b"Type"), Object::new_name(b"Example")),
            (Name::from(b"Subtype"), Object::new_name(b"DictionaryExample")),
            (Name::from(b"Version"), real_lit("0.01")),
            (Name::from(b"IntegerItem"), Object::Number(Number::Int(12))),
            (Name::from(b"StringItem"), Object::new_string(b"a string")),
            (Name::from(b"Subdictionary"), Object::Dict(Dict(vec![
                (Name::from(b"Item1"), real_lit("0.4")),
                (Name::from(b"Item2"), Object::Bool(true)),
                (Name::from(b"LastItem"), Object::new_string(b"not !")),
                (Name::from(b"VeryLastItem"), Object::new_string(b"OK"))
            ])))
        ])).format()),
        "<< /Type /Example /Subtype /DictionaryExample /Version 0.01 /IntegerItem 12 \
        /StringItem (a string) /Subdictionary << /Item1 0.4 /Item2 true /LastItem (not !) \
        /VeryLastItem (OK) >> >>"
    );
    assert_eq!(
        text(Object::Dict(Dict(vec![(Name::from(b"Length"), Object::Ref(ObjRef { num: 8, gen: 0 }))])).format()),
        "<< /Length 8 0 R >>"
    );
}

#[test]
fn object_test_display() {
    check_display();
}

#[test]
fn base_test_display() {
    check_display();
}

#[test]
fn format_edge_cases() {
    assert_eq!(text(Object::Number(Number::Int(i64::MIN)).format()), "-9223372036854775808");
    assert_eq!(text(Object::Number(Number::Int(0)).format()), "0");
    assert_eq!(text(Object::Null.format()), "null");
    assert_eq!(text(Object::Dict(Dict::new()).format()), "<< >>");
    assert_eq!(text(Object::Array(vec![]).format()), "[ ]");
    assert_eq!(text(Object::new_string(&[0xff, 0x7f, 0x20]).format()), "(\\377\\177 )");
    assert_eq!(text(ObjRef { num: 12, gen: 3 }.format()), "12 3");
    assert_eq!(text(Name::from(b"").format()), "/");
}

#[test]
fn record_default_and_locate() {
    assert_eq!(Record::default(), Record::Free { gen: 65535, next: 0 });
    let mut map = BTreeMap::new();
    map.insert(1, Record::Used { gen: 0, offset: 15 });
    map.insert(2, Record::Compr { num_within: 5, index: 3 });
    map.insert(3, Record::Free { gen: 2, next: 0 });
    let xref = XRef { tpe: XRefType::Table, map, dict: Dict::new(), size: 5 };
    assert_eq!(xref.locate(&ObjRef { num: 1, gen: 0 }), Some(Record::Used { gen: 0, offset: 15 }));
    assert_eq!(xref.locate(&ObjRef { num: 1, gen: 1 }), Some(Record::default()));
    assert_eq!(xref.locate(&ObjRef { num: 2, gen: 0 }), Some(Record::Compr { num_within: 5, index: 3 }));
    assert_eq!(xref.locate(&ObjRef { num: 2, gen: 1 }), Some(Record::default()));
    assert_eq!(xref.locate(&ObjRef { num: 3, gen: 7 }), Some(Record::Free { gen: 2, next: 0 }));
    assert_eq!(xref.locate(&ObjRef { num: 4, gen: 0 }), None);
    assert_eq!(xref.locate(&ObjRef { num: 5, gen: 0 }), Some(Record::default()));
    assert_eq!(().locate(&ObjRef { num: 1, gen: 0 }), None);
}

#[test]
fn merge_prev_prefers_newer() {
    let mut newer = BTreeMap::new();
    newer.insert(1, Record::Used { gen: 0, offset: 100 });
    let mut older = BTreeMap::new();
    older.insert(1, Record::Used { gen: 0, offset: 10 });
    older.insert(2, Record::Used { gen: 0, offset: 20 });
    let mut x = XRef { tpe: XRefType::Table, map: newer, dict: Dict::new(), size: 3 };
    let prev = XRef { tpe: XRefType::Table, map: older, dict: Dict::new(), size: 9 };
    x.merge_prev(prev);
    assert_eq!(x.size, 3);
    assert_eq!(x.map.get(&1), Some(&Record::Used { gen: 0, offset: 100 }));
    assert_eq!(x.map.get(&2), Some(&Record::Used { gen: 0, offset: 20 }));
    assert_eq!(x.map.len(), 2);
}

#[test]
fn object_accessors() {
    let o = Object::Dict(Dict(vec![(Name::from(b"N"), Object::Number(Number::Int(-3)))]));
    let d = o.as_dict().unwrap();
    assert_eq!(d.lookup(b"N").int_value(), Some(-3));
    assert_eq!(d.lookup(b"N").num_value(), None);
    assert_eq!(Object::Number(Number::Int(7)).num_value(), Some(7));
    assert!(o.as_array().is_none());
    assert_eq!(Object::Bool(true).as_bool(), Some(true));
    assert_eq!(Object::Ref(ObjRef { num: 1, gen: 2 }).into_objref(), Some(ObjRef { num: 1, gen: 2 }));
    assert_eq!(o.duplicate(), o);
}
