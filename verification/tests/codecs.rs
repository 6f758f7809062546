use pdflib::base::{Dict, Name, Number, Object, ObjRef, Error, IoError};
use pdflib::codecs::{decode, parse_filters, to_filters, Filter};
use pdflib::codecs::{ascii85, asciihex, flate};

#[test]
fn test_filter_chaining() {
    let data = b"78 9c 2b 49 2d 2e 01 00 04 5d 01 c1";
    let out = decode(data, &[Filter::AsciiHex, Filter::Flate(Dict::new())]).unwrap();
    assert_eq!(String::from_utf8(out).unwrap(), "test");
}

#[test]
fn asciihex_decoding() {
    assert_eq!(asciihex::decode(b"61 62%x\n6>zz").unwrap(), vec![0x61, 0x62, 0x60]);
    assert_eq!(asciihex::decode(b"4E6F76>").unwrap(), b"Nov");
    assert_eq!(asciihex::decode(b"7").unwrap(), vec![0x70]);
    assert_eq!(asciihex::decode(b"").unwrap(), b"");
    assert_eq!(asciihex::decode(b"6g>"), Err(Error::IO(IoError::InvalidData)));
}

#[test]
fn ascii85_decoding() {
    // "Man " and "sure" encode to these groups
    assert_eq!(ascii85::decode(b"9jqo^F*2M7~>").unwrap(), b"Man sure");
    assert_eq!(ascii85::decode(b"z~>").unwrap(), vec![0, 0, 0, 0]);
    assert_eq!(ascii85::decode(b"9jqo^ F*2M7\n/c~>").unwrap(), b"Man sure.");
    assert_eq!(ascii85::decode(b"~>").unwrap(), b"");
    // the data ends without the end marker
    assert_eq!(ascii85::decode(b"9jqo^"), Err(Error::IO(IoError::UnexpectedEof)));
    // a byte that is not a digit
    assert_eq!(ascii85::decode(b"9jq{^~>"), Err(Error::IO(IoError::InvalidData)));
    // a group over 32 bits
    assert_eq!(ascii85::decode(b"uuuuu~>"), Err(Error::IO(IoError::InvalidData)));
    assert_eq!(ascii85::to_digit(b'!').unwrap(), 0);
    assert!(ascii85::to_digit(b'v').is_err());
}

#[test]
fn png_predictor() {
    // Up filter on two rows of two columns, then Sub on one row
    let x = [2u8, 1, 2, 2, 1, 1, 1, 5, 5];
    assert!(flate::check_png_tags(&x, 2));
    assert_eq!(flate::png_decode(&x, 2), vec![1, 2, 2, 3, 5, 10]);
    // an incomplete last row is dropped
    assert_eq!(flate::png_decode(&[0u8, 7, 8, 0, 9], 2), vec![7, 8]);
    assert!(!flate::check_png_tags(&[3u8, 1, 1], 2));
}

#[test]
fn flate_with_png_predictor() {
    // zlib of [2, 1, 2, 2, 1, 1]
    let mut enc = flate2::write::ZlibEncoder::new(Vec::new(), flate2::Compression::default());
    std::io::Write::write_all(&mut enc, &[2u8, 1, 2, 2, 1, 1]).unwrap();
    let z = enc.finish().unwrap();
    let params = Dict(vec![
        (Name::from(b"Predictor"), Object::Number(Number::Int(12))),
        (Name::from(b"Columns"), Object::Number(Number::Int(2))),
    ]);
    assert_eq!(flate::decode(&z, &params).unwrap(), vec![1, 2, 2, 3]);
    assert_eq!(flate::decode(&z, &Dict::new()).unwrap(), vec![2, 1, 2, 2, 1, 1]);
    assert_eq!(flate::decode(b"not zlib", &Dict::new()), Err(Error::IO(IoError::InvalidInput)));
    assert_eq!(flate::decode(b"not zlib", &params), Err(Error::IO(IoError::InvalidInput)));
}

#[test]
fn flate_stream_cut_short() {
    // zlib of three rows of two columns, the last one incomplete, without its checksum
    let mut enc = flate2::write::ZlibEncoder::new(Vec::new(), flate2::Compression::default());
    std::io::Write::write_all(&mut enc, &[2u8, 1, 2, 2, 1, 1, 0, 9]).unwrap();
    let z = enc.finish().unwrap();
    let cut = &z[..z.len() - 4];
    let params = Dict(vec![
        (Name::from(b"Predictor"), Object::Number(Number::Int(12))),
        (Name::from(b"Columns"), Object::Number(Number::Int(2))),
    ]);
    assert_eq!(flate::decode(cut, &Dict::new()), Err(Error::IO(IoError::UnexpectedEof)));
    assert_eq!(flate::decode(cut, &params).unwrap(), vec![1, 2, 2, 3]);
    assert_eq!(flate::decode(&z, &params).unwrap(), vec![1, 2, 2, 3]);
    assert_eq!(flate::decode(&[], &params).unwrap(), Vec::<u8>::new());
    assert_eq!(flate::decode(&[], &Dict::new()), Err(Error::IO(IoError::UnexpectedEof)));
}

#[test]
fn parse_filter_entries() {
    let d = Dict(vec![(Name::from(b"Filter"), Object::new_name(b"ASCIIHexDecode"))]);
    assert_eq!(parse_filters(&d, &mut ()).unwrap(), vec![Filter::AsciiHex]);

    let params = Dict(vec![(Name::from(b"Predictor"), Object::Number(Number::Int(12)))]);
    let d = Dict(vec![
        (Name::from(b"Filter"), Object::Array(vec![Object::new_name(b"ASCII85Decode"), Object::new_name(b"FlateDecode")])),
        (Name::from(b"DecodeParms"), Object::Array(vec![Object::Null, Object::Dict(params.duplicate())])),
    ]);
    assert_eq!(parse_filters(&d, &mut ()).unwrap(), vec![Filter::Ascii85, Filter::Flate(params)]);

    let d = Dict(vec![(Name::from(b"Filter"), Object::new_name(b"LZWDecode"))]);
    assert_eq!(parse_filters(&d, &mut ()), Err(Error::Parse("unimplemented filter")));

    let d = Dict(vec![(Name::from(b"Filter"), Object::Number(Number::Int(1)))]);
    assert_eq!(parse_filters(&d, &mut ()), Err(Error::Parse("malformed /Filter")));

    let d = Dict(vec![
        (Name::from(b"Filter"), Object::Array(vec![Object::new_name(b"FlateDecode")])),
        (Name::from(b"DecodeParms"), Object::Array(vec![])),
    ]);
    assert_eq!(parse_filters(&d, &mut ()), Err(Error::Parse("malformed /DecodeParms")));

    let d = Dict(vec![(Name::from(b"Filter"), Object::Ref(ObjRef { num: 3, gen: 0 }))]);
    assert_eq!(parse_filters(&d, &mut ()), Err(Error::Parse("no resolver provided for resolving object references")));

    assert_eq!(parse_filters(&Dict::new(), &mut ()).unwrap(), vec![]);
}

#[test]
fn filter_names_of_a_filter_value() {
    let n = |s: &[u8]| Object::new_name(s);
    assert_eq!(to_filters(&n(b"FlateDecode")).unwrap(), vec![Name::from(b"FlateDecode")]);
    let arr = Object::Array(vec![n(b"ASCIIHexDecode"), n(b"Foo")]);
    assert_eq!(to_filters(&arr).unwrap(), vec![Name::from(b"ASCIIHexDecode"), Name::from(b"Foo")]);
    assert_eq!(to_filters(&Object::Null).unwrap(), Vec::<Name>::new());
    let bad = Object::Array(vec![n(b"A"), Object::Number(Number::Int(1))]);
    assert_eq!(to_filters(&bad), Err(Error::Parse("malformed /Filter")));
    assert_eq!(to_filters(&Object::Bool(true)), Err(Error::Parse("malformed /Filter")));
}
