use pdflib::base::{Dict, Error, Name, Number, ObjRef, Object};
use pdflib::op::{ObjParser, Parser};

fn real_lit(lit: &str) -> Object {
    Object::Number(Number::Real(lit.as_bytes().to_vec()))
}

fn real_value(o: &Object) -> f64 {
    match o {
        Object::Number(Number::Real(r)) => std::str::from_utf8(r).unwrap().parse::<f64>().unwrap(),
        _ => panic!("not a real number: {:?}", o),
    }
}

/// The two object parsers, read through one interface.
trait ReadObj {
    fn read_obj(&mut self) -> Result<Object, Error>;
}

impl ReadObj for ObjParser {
    fn read_obj(&mut self) -> Result<Object, Error> {
        ObjParser::read_obj(self)
    }
}

impl ReadObj for Parser {
    fn read_obj(&mut self) -> Result<Object, Error> {
        Parser::read_obj(self)
    }
}

fn op(s: &str) -> ObjParser {
    ObjParser::from_bytes(s.as_bytes())
}

fn parser(s: &str) -> Parser {
    Parser::from_bytes(s.as_bytes())
}

fn check_read_obj<P: ReadObj>(p: fn(&str) -> P, input: &str) {
    let mut parser = p(input);
    assert_eq!(parser.read_obj().unwrap(), Object::Bool(true));
    assert_eq!(parser.read_obj().unwrap(), Object::Bool(false));
    assert_eq!(parser.read_obj().unwrap(), Object::Null);
    assert_eq!(parser.read_obj().unwrap(), Object::Number(Number::Int(123)));
    assert_eq!(parser.read_obj().unwrap(), Object::Number(Number::Int(17)));
    assert_eq!(parser.read_obj().unwrap(), Object::Number(Number::Int(-98)));
    assert_eq!(parser.read_obj().unwrap(), Object::Number(Number::Int(0)));
    assert_eq!(parser.read_obj().unwrap(), Object::Number(Number::Int(987)));
    assert_eq!(real_value(&parser.read_obj().unwrap()), 34.5);
    assert_eq!(real_value(&parser.read_obj().unwrap()), -3.62);
    assert_eq!(real_value(&parser.read_obj().unwrap()), 123.6);
    assert_eq!(real_value(&parser.read_obj().unwrap()), 4.);
    assert_eq!(real_value(&parser.read_obj().unwrap()), -0.002);
    assert_eq!(real_value(&parser.read_obj().unwrap()), 0.);
    assert_eq!(real_value(&parser.read_obj().unwrap()), 9.87);

    let mut parser = p("9223372036854775807 9223372036854775808");
    assert_eq!(parser.read_obj().unwrap(), Object::Number(Number::Int(9223372036854775807)));
    assert!(parser.read_obj().is_err());

    let mut parser = p("++1 1..0 .1. 1_ 1a 16#FFFE . 6.023E23 true");
    for _ in 0..8 {
        assert!(parser.read_obj().is_err());
    }
    assert_eq!(parser.read_obj().unwrap(), Object::Bool(true));
}

#[test]
fn op_test_read_obj() {
    check_read_obj(op, "true false null 123 +17 -98 0 00987 34.5 -3.62 +123.6 4. -.002 0.0 009.87");
}

#[test]
fn parser_test_read_obj() {
    check_read_obj(parser, "true false null 123 +17 -98 0 00987 34.5 -3.62 +123.6 4. -.002 0.0 009.87");
}

#[test]
fn lib_test_read_obj() {
    let mut parser = Parser::from_bytes(b"true false 123 +17 -98 0 34.5 -3.62 +123.6 4. -.002 0.0");
    assert_eq!(parser.read_obj().unwrap(), Object::Bool(true));
    assert_eq!(parser.read_obj().unwrap(), Object::Bool(false));
    assert_eq!(parser.read_obj().unwrap(), Object::Number(Number::Int(123)));
    assert_eq!(parser.read_obj().unwrap(), Object::Number(Number::Int(17)));
    assert_eq!(parser.read_obj().unwrap(), Object::Number(Number::Int(-98)));
    assert_eq!(parser.read_obj().unwrap(), Object::Number(Number::Int(0)));
    assert_eq!(real_value(&parser.read_obj().unwrap()), 34.5);
    assert_eq!(real_value(&parser.read_obj().unwrap()), -3.62);
    assert_eq!(real_value(&parser.read_obj().unwrap()), 123.6);
    assert_eq!(real_value(&parser.read_obj().unwrap()), 4.);
    assert_eq!(real_value(&parser.read_obj().unwrap()), -0.002);
    assert_eq!(real_value(&parser.read_obj().unwrap()), 0.);

    let mut parser = Parser::from_bytes(b"++1 1..0 .1. 1_ 1a true");
    for _ in 0..5 {
        assert!(parser.read_obj().is_err());
    }
    assert_eq!(parser.read_obj().unwrap(), Object::Bool(true));
}

fn check_lit_string<P: ReadObj>(p: fn(&str) -> P) {
    let mut parser = p("(string) (new\nline) (parens() (*!&}^%etc).) () ((0)) (()");
    assert_eq!(parser.read_obj().unwrap(), Object::new_string(b"string"));
    assert_eq!(parser.read_obj().unwrap(), Object::new_string(b"new\nline"));
    assert_eq!(parser.read_obj().unwrap(), Object::new_string(b"parens() (*!&}^%etc)."));
    assert_eq!(parser.read_obj().unwrap(), Object::new_string(b""));
    assert_eq!(parser.read_obj().unwrap(), Object::new_string(b"(0)"));
    assert!(parser.read_obj().is_err());

    let mut parser = p("(These \\\ntwo strings \\\nare the same.) (These two strings are the same.)");
    assert_eq!(parser.read_obj().unwrap(), parser.read_obj().unwrap());

    let mut parser = p("(1\n) (2\\n) (3\\r) (4\\r\\n)");
    assert_eq!(parser.read_obj().unwrap(), Object::new_string(b"1\n"));
    assert_eq!(parser.read_obj().unwrap(), Object::new_string(b"2\n"));
    assert_eq!(parser.read_obj().unwrap(), Object::new_string(b"3\r"));
    assert_eq!(parser.read_obj().unwrap(), Object::new_string(b"4\r\n"));

    let mut parser = p("(1\n) (2\n) (3\r) (4\r\n)");
    assert_eq!(parser.read_obj().unwrap(), Object::new_string(b"1\n"));
    assert_eq!(parser.read_obj().unwrap(), Object::new_string(b"2\n"));
    assert_eq!(parser.read_obj().unwrap(), Object::new_string(b"3\n"));
    assert_eq!(parser.read_obj().unwrap(), Object::new_string(b"4\n"));

    let mut parser = p("(\\157cta\\154) (\\500) (\\0053\\053\\53) (\\53x)");
    assert_eq!(parser.read_obj().unwrap(), Object::new_string(b"octal"));
    assert_eq!(parser.read_obj().unwrap(), Object::new_string(b"@"));
    assert_eq!(parser.read_obj().unwrap(), Object::new_string(b"\x053++"));
    assert_eq!(parser.read_obj().unwrap(), Object::new_string(b"+x"));
}

#[test]
fn op_test_read_lit_string() {
    check_lit_string(op);
}

#[test]
fn parser_test_read_lit_string() {
    check_lit_string(parser);
}

fn check_hex_string<P: ReadObj>(p: fn(&str) -> P) {
    let mut parser = p("<4E6F762073686D6F7A206B6120706F702E> <901FA3> <901fa>");
    assert_eq!(parser.read_obj().unwrap(), Object::new_string(b"Nov shmoz ka pop."));
    assert_eq!(parser.read_obj().unwrap(), Object::String(vec![0x90, 0x1F, 0xA3]));
    assert_eq!(parser.read_obj().unwrap(), Object::String(vec![0x90, 0x1F, 0xA0]));

    let mut parser = p("<61\r\n6 2> <61%comment\n> <61%unterminated>");
    assert_eq!(parser.read_obj().unwrap(), Object::new_string(b"ab"));
    assert_eq!(parser.read_obj().unwrap(), Object::new_string(b"a"));
    assert!(parser.read_obj().is_err());
}

#[test]
fn op_test_read_hex_string() {
    check_hex_string(op);
}

#[test]
fn parser_test_read_hex_string() {
    check_hex_string(parser);
}

fn check_name<P: ReadObj>(p: fn(&str) -> P) {
    let mut parser = p("/Name1 /A;Name_With-Various***Characters? /1.2 /$$ /@pattern
            /.notdef /Lime#20Green /paired#28#29parentheses /The_Key_of_F#23_Minor /A#42");
    assert_eq!(parser.read_obj().unwrap(), Object::new_name(b"Name1"));
    assert_eq!(parser.read_obj().unwrap(), Object::new_name(b"A;Name_With-Various***Characters?"));
    assert_eq!(parser.read_obj().unwrap(), Object::new_name(b"1.2"));
    assert_eq!(parser.read_obj().unwrap(), Object::new_name(b"$$"));
    assert_eq!(parser.read_obj().unwrap(), Object::new_name(b"@pattern"));
    assert_eq!(parser.read_obj().unwrap(), Object::new_name(b".notdef"));
    assert_eq!(parser.read_obj().unwrap(), Object::new_name(b"Lime Green"));
    assert_eq!(parser.read_obj().unwrap(), Object::new_name(b"paired()parentheses"));
    assert_eq!(parser.read_obj().unwrap(), Object::new_name(b"The_Key_of_F#_Minor"));
    assert_eq!(parser.read_obj().unwrap(), Object::new_name(b"AB"));

    let mut parser = p("//%\n1 /ok /invalid#00byte /#0x /#0 true");
    assert_eq!(parser.read_obj().unwrap(), Object::new_name(b""));
    assert_eq!(parser.read_obj().unwrap(), Object::new_name(b""));
    assert_eq!(parser.read_obj().unwrap(), Object::Number(Number::Int(1)));
    assert_eq!(parser.read_obj().unwrap(), Object::new_name(b"ok"));
    assert!(parser.read_obj().is_err());
    assert!(parser.read_obj().is_err());
    assert!(parser.read_obj().is_err());
    assert_eq!(parser.read_obj().unwrap(), Object::Bool(true));
}

#[test]
fn op_test_read_name() {
    check_name(op);
}

#[test]
fn parser_test_read_name() {
    check_name(parser);
}

fn check_array<P: ReadObj>(p: fn(&str) -> P) {
    let mut parser = p("[549 3.14 false (Ralph) /SomeName] [ %\n ] [false%]");
    assert_eq!(parser.read_obj().unwrap(), Object::Array(vec![
        Object::Number(Number::Int(549)),
        real_lit("3.14"),
        Object::Bool(false),
        Object::new_string(b"Ralph"),
        Object::new_name(b"SomeName")
    ]));
    assert_eq!(parser.read_obj().unwrap(), Object::Array(Vec::new()));
    assert!(parser.read_obj().is_err());
}

#[test]
fn op_test_read_array() {
    check_array(op);
}

#[test]
fn parser_test_read_array() {
    check_array(parser);
}

fn check_dict<P: ReadObj>(p: fn(&str) -> P) {
    let mut parser = p("<</Type /Example
    /Subtype /DictionaryExample
    /Version 0.01
    /IntegerItem 12
    /StringItem (a string)
    /Subdictionary <<
        /Item1 0.4
        /Item2 true
        /LastItem (not !)
        /VeryLastItem (OK)
        >>
    >>");
    assert_eq!(parser.read_obj().unwrap(), Object::Dict(Dict(vec![
        (Name::from(b"Type"), Object::new_name(b"Example")),
        (Name::from(b"Subtype"), Object::new_name(b"DictionaryExample")),
        (Name::from(b"Version"), real_lit("0.01")),
        (Name::from(b"IntegerItem"), Object::Number(Number::Int(12))),
        (Name::from(b"StringItem"), Object::new_string(b"a string")),
        (Name::from(b"Subdictionary"), Object::Dict(Dict(vec![
            (Name::from(b"Item1"), real_lit("0.4")),
            (Name::from(b"Item2"), Object::Bool(true)),
            (Name::from(b"LastItem"), Object::new_string(b"not !")),
            (Name::from(b"VeryLastItem"), Object::new_string(b"OK"))
        ])))
    ])));
}

#[test]
fn op_test_read_dict() {
    check_dict(op);
}

#[test]
fn parser_test_read_dict() {
    check_dict(parser);
}

fn check_indirect<P: ReadObj>(p: fn(&str) -> P) {
    let mut parser = p("<</Length 8 0 R>>");
    assert_eq!(parser.read_obj().unwrap(), Object::Dict(Dict(vec![
        (Name::from(b"Length"), Object::Ref(ObjRef { num: 8, gen: 0 }))
    ])));

    let mut parser = p("1 2 3 R 4 R");
    assert_eq!(parser.read_obj().unwrap(), Object::Number(Number::Int(1)));
    assert_eq!(parser.read_obj().unwrap(), Object::Ref(ObjRef { num: 2, gen: 3 }));
    assert_eq!(parser.read_obj().unwrap(), Object::Number(Number::Int(4)));
    assert!(parser.read_obj().is_err());

    let mut parser = p("0 0 R");
    assert_eq!(parser.read_obj().unwrap(), Object::Number(Number::Int(0)));
    assert_eq!(parser.read_obj().unwrap(), Object::Number(Number::Int(0)));
    assert!(parser.read_obj().is_err());

    let mut parser = p("01 0 R");
    assert_eq!(parser.read_obj().unwrap(), Object::Number(Number::Int(1)));
    assert_eq!(parser.read_obj().unwrap(), Object::Number(Number::Int(0)));
    assert!(parser.read_obj().is_err());

    let mut parser = p("1 01 R");
    assert_eq!(parser.read_obj().unwrap(), Object::Number(Number::Int(1)));
    assert_eq!(parser.read_obj().unwrap(), Object::Number(Number::Int(1)));
    assert!(parser.read_obj().is_err());

    let mut parser = p("1 +1 R");
    assert_eq!(parser.read_obj().unwrap(), Object::Number(Number::Int(1)));
    assert_eq!(parser.read_obj().unwrap(), Object::Number(Number::Int(1)));
    assert!(parser.read_obj().is_err());
}

#[test]
fn op_test_read_indirect() {
    check_indirect(op);
}

#[test]
fn parser_test_read_indirect() {
    check_indirect(parser);
}

#[test]
fn read_number_and_positions() {
    let mut parser = op(" 12 x");
    assert_eq!(parser.read_number().unwrap(), Number::Int(12));
    assert_eq!(parser.pos(), 3);
    assert!(parser.read_number().is_err());

    let mut parser = Parser::from_bytes(b"abc 5 0 R");
    parser.seek_to(4);
    assert_eq!(parser.pos(), 4);
    assert_eq!(parser.read_obj().unwrap(), Object::Ref(ObjRef { num: 5, gen: 0 }));
    assert_eq!(parser.read_raw(2), b"c 5 0 R");
    assert_eq!(parser.read_raw(100), b"");
}

#[test]
fn gen_starting_with_nine_is_not_a_reference() {
    let mut parser = op("5 9 R");
    assert_eq!(parser.read_obj().unwrap(), Object::Number(Number::Int(5)));
    assert_eq!(parser.read_obj().unwrap(), Object::Number(Number::Int(9)));
}

#[test]
fn format_then_parse_gives_back() {
    let s: Vec<u8> = (0u8..=255).collect();
    let written = Object::new_string(&s).format();
    let mut parser = ObjParser::from_bytes(&written);
    assert_eq!(parser.read_obj().unwrap(), Object::new_string(&s));

    let name: Vec<u8> = (1u8..=255).collect();
    let written = Object::new_name(&name).format();
    let mut parser = ObjParser::from_bytes(&written);
    assert_eq!(parser.read_obj().unwrap(), Object::new_name(&name));
}

#[test]
fn read_obj_indirect_checks_numbers() {
    let mut p = Parser::from_bytes(b"12 0 obj << /A 1 >> endobj");
    let o = p.read_obj_indirect(12, 0).unwrap();
    assert_eq!(o.as_dict().unwrap().lookup(b"A"), Object::Number(Number::Int(1)));
    let mut p = Parser::from_bytes(b"12 0 obj true");
    assert_eq!(p.read_obj_indirect(13, 0), Err(pdflib::base::Error::Parse("number does not match")));
    let mut p = Parser::from_bytes(b"12 1 obj true");
    assert_eq!(p.read_obj_indirect(12, 0), Err(pdflib::base::Error::Parse("number does not match")));
    let mut p = Parser::from_bytes(b"12 0 R");
    assert_eq!(p.read_obj_indirect(12, 0), Err(pdflib::base::Error::Parse("unexpected token")));
    let mut p = Parser::from_bytes(b"1.5 0 obj");
    assert_eq!(p.read_obj_indirect(1, 0), Err(pdflib::base::Error::Parse("unexpected token")));
}

#[test]
fn integers_read_back() {
    for i in [0i64, 7, -1, 10, 123456, i64::MIN, i64::MAX] {
        let text = Object::Number(Number::Int(i)).format();
        let mut p = Parser::from_bytes(&text);
        assert_eq!(p.read_obj().unwrap(), Object::Number(Number::Int(i)));
    }
}
