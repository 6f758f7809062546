use pdflib::reader::full::{FullReader, Link};
use pdflib::base::{Data, Dict, Error, Name, Number, ObjRef, Object, Record, Resolver, Stream, XRefType};
use pdflib::fp::FileParser;
use pdflib::reader::base::BaseReader;
use pdflib::reader::simple::SimpleReader;

/// Builds a file from object bodies: returns the data, the offsets of the objects (relative to
/// `%PDF`) and the offset of the table.
fn build(junk: &[u8], objs: &[(u64, Vec<u8>)], trailer_extra: &str) -> (Vec<u8>, Vec<u64>, u64) {
    let mut out = junk.to_vec();
    let base = out.len() as u64;
    out.extend_from_slice(b"%PDF-1.4\n");
    let mut offs = Vec::new();
    for (num, body) in objs {
        offs.push(out.len() as u64 - base);
        out.extend_from_slice(format!("{} 0 obj\n", num).as_bytes());
        out.extend_from_slice(body);
        out.extend_from_slice(b"\nendobj\n");
    }
    let xref = out.len() as u64 - base;
    let size = objs.len() + 1;
    out.extend_from_slice(format!("xref\n0 {}\n0000000000 65535 f \n", size).as_bytes());
    for o in &offs {
        out.extend_from_slice(format!("{:010} 00000 n \n", o).as_bytes());
    }
    out.extend_from_slice(format!("trailer\n<< /Size {} {} >>\nstartxref\n{}\n%%EOF\n", size, trailer_extra, xref).as_bytes());
    (out, offs, xref)
}

fn sample() -> (Vec<u8>, Vec<u64>, u64) {
    build(b"", &[
        (1, b"<< /Type /Pages /Kids [2 0 R] /Count 1 >>".to_vec()),
        (2, b"<< /Type /Page /Parent 1 0 R /Contents 3 0 R >>".to_vec()),
        (3, b"<< /Length 4 0 R >>\nstream\nhello world\nendstream".to_vec()),
        (4, b"11".to_vec()),
    ], "/Root 1 0 R")
}

#[test]
fn file_parser_header_and_entrypoint() {
    let (data, offs, xref) = sample();
    let mut fp = FileParser::new(data);
    let h = *fp.header().as_ref().unwrap();
    assert_eq!(h.start, 0);
    assert_eq!(h.version, (1, 4));
    assert_eq!(fp.entrypoint().unwrap(), xref);
    assert_eq!(&fp.read_raw(xref)[0..4], b"xref");
    let (oref, obj) = fp.read_obj_at(offs[0]).unwrap();
    assert_eq!(oref, ObjRef { num: 1, gen: 0 });
    assert_eq!(obj.as_dict().unwrap().lookup(b"Count"), Object::Number(Number::Int(1)));
    let (_, stm) = fp.read_obj_at(offs[2]).unwrap();
    let Object::Stream(Stream { data, .. }) = stm else { panic!() };
    assert_eq!(data, Data::Ref(offs[2] + 8 + 19 + 8));
    assert!(fp.read_obj_at(xref).is_err());
    let x = fp.read_xref_at(xref).unwrap();
    assert_eq!(x.tpe, XRefType::Table);
    assert_eq!(x.size, 5);
    assert_eq!(x.map.get(&3), Some(&Record::Used { gen: 0, offset: offs[2] }));
    assert!(fp.read_xref_at(offs[0]).is_err());

    let (data, _, xref) = build(b"junk\r\n", &[(1, b"null".to_vec())], "");
    let fp = FileParser::new(data);
    assert_eq!(fp.header().as_ref().unwrap().start, 6);
    assert_eq!(fp.entrypoint().unwrap(), xref);
    assert_eq!(&fp.read_raw(xref + 6)[0..4], b"xref");

    let fp = FileParser::new(b"%PDF".to_vec());
    assert_eq!(*fp.header().as_ref().unwrap_err(), Error::IO(pdflib::base::IoError::UnexpectedEof));
    let fp = FileParser::new(b"no header here".to_vec());
    assert_eq!(*fp.header().as_ref().unwrap_err(), Error::Parse("header not found"));
    assert_eq!(fp.entrypoint(), Err(Error::Parse("startxref not found")));
}

#[test]
fn simple_reader_objects_and_streams() {
    let (data, _, _) = sample();
    let mut rdr = SimpleReader::new(data).unwrap();
    let objs = rdr.objects();
    assert_eq!(objs.len(), 4);
    assert_eq!(objs[0].0, ObjRef { num: 1, gen: 0 });
    assert_eq!(objs[3].0, ObjRef { num: 4, gen: 0 });
    assert_eq!(objs[3].1, Ok(Object::Number(Number::Int(11))));
    let kids = rdr.resolve_ref(&ObjRef { num: 2, gen: 0 }).unwrap();
    assert_eq!(objs[1].1, Ok(kids.duplicate()));
    let deep = rdr.resolve_deep(kids).unwrap();
    assert_eq!(deep.as_dict().unwrap().lookup(b"Parent").as_dict().unwrap().lookup(b"Count"), Object::Number(Number::Int(1)));
    let stm = rdr.resolve_ref(&ObjRef { num: 3, gen: 0 }).unwrap().into_stream().unwrap();
    assert_eq!(rdr.read_stream_data(&stm).unwrap(), b"hello world");
    assert_eq!(rdr.resolve_ref(&ObjRef { num: 3, gen: 1 }).unwrap(), Object::Null);
    assert_eq!(rdr.resolve_ref(&ObjRef { num: 9, gen: 0 }).unwrap(), Object::Null);
    assert_eq!(rdr.resolve_obj(Object::Ref(ObjRef { num: 4, gen: 0 })).unwrap(), Object::Number(Number::Int(11)));
}

#[test]
fn simple_test_xref_chaining() {
    // An update replaces object 2 and points back to the first table.
    let (mut data, _, xref1) = sample();
    let o2 = data.len() as u64;
    data.extend_from_slice(b"2 0 obj\n(updated)\nendobj\n");
    let x2 = data.len() as u64;
    data.extend_from_slice(format!("xref\n2 1\n{:010} 00000 n \ntrailer\n<< /Size 5 /Prev {} >>\nstartxref\n{}\n%%EOF\n", o2, xref1, x2).as_bytes());
    let mut rdr = SimpleReader::new(data).unwrap();
    assert_eq!(rdr.resolve_ref(&ObjRef { num: 2, gen: 0 }).unwrap(), Object::new_string(b"updated"));
    assert_eq!(rdr.resolve_ref(&ObjRef { num: 4, gen: 0 }).unwrap(), Object::Number(Number::Int(11)));
    assert_eq!(rdr.xref().map.len(), 5);

    // A table whose /Prev points to itself.
    let (data, _, _) = build(b"", &[(1, b"true".to_vec())], "");
    let xref = data.windows(4).position(|w| w == b"xref").unwrap();
    let (data, _, _) = build(b"", &[(1, b"true".to_vec())], &format!("/Prev {}", xref));
    let mut rdr = SimpleReader::new(data).unwrap();
    assert_eq!(rdr.resolve_ref(&ObjRef { num: 1, gen: 0 }).unwrap(), Object::Bool(true));
}

/// A file with a cross-reference stream and an object stream holding objects 8 and 9.
fn with_streams() -> Vec<u8> {
    let mut out = b"%PDF-1.5\n".to_vec();
    let o1 = out.len();
    out.extend_from_slice(b"1 0 obj\n<< /Type /Catalog >>\nendobj\n");
    let o7 = out.len();
    let body = b"8 0 9 4 (a) <</K 8 0 R>>";
    out.extend_from_slice(format!("7 0 obj\n<< /Type /ObjStm /N 2 /First 8 /Length {} >>\nstream\n", body.len()).as_bytes());
    out.extend_from_slice(body);
    out.extend_from_slice(b"\nendstream\nendobj\n");
    let o10 = out.len();
    let mut rows: Vec<u8> = Vec::new();
    let mut row = |t: u8, f2: usize, f3: u8| {
        rows.push(t);
        rows.push((f2 >> 8) as u8);
        rows.push(f2 as u8);
        rows.push(f3);
    };
    row(0, 0, 255);
    row(1, o1, 0);
    row(2, 7, 0);
    row(2, 7, 1);
    row(1, o10, 0);
    row(1, o7, 0);
    let rows_len = rows.len();
    out.extend_from_slice(format!("10 0 obj\n<< /Type /XRef /Size 11 /W [1 2 1] /Index [0 2 8 2 10 1 7 1] /Length {} >>\nstream\n", rows_len).as_bytes());
    out.extend_from_slice(&rows);
    out.extend_from_slice(format!("\nendstream\nendobj\nstartxref\n{}\n%%EOF\n", o10).as_bytes());
    out
}

#[test]
fn xref_stream_and_object_stream() {
    let data = with_streams();
    let mut fp = FileParser::new(data.clone());
    let entry = fp.entrypoint().unwrap();
    let x = fp.read_xref_at(entry).unwrap();
    assert_eq!(x.tpe, XRefType::Stream(ObjRef { num: 10, gen: 0 }));
    assert_eq!(x.map.get(&8), Some(&Record::Compr { num_within: 7, index: 0 }));
    assert_eq!(x.map.get(&0), Some(&Record::Free { gen: 255, next: 0 }));

    let mut rdr = SimpleReader::new(data).unwrap();
    assert_eq!(rdr.resolve_ref(&ObjRef { num: 8, gen: 0 }).unwrap(), Object::new_string(b"a"));
    let nine = rdr.resolve_ref(&ObjRef { num: 9, gen: 0 }).unwrap();
    assert_eq!(nine, Object::Dict(Dict(vec![(Name::from(b"K"), Object::Ref(ObjRef { num: 8, gen: 0 }))])));
    assert_eq!(rdr.resolve_ref(&ObjRef { num: 9, gen: 0 }).unwrap(), nine);
    let objs = rdr.objects();
    let nums: Vec<u64> = objs.iter().map(|(o, _)| o.num).collect();
    assert_eq!(nums, vec![1, 7, 8, 9, 10]);

    // The same through the whole chain, with the object stream read once and then cached.
    let mut full = FullReader::new(with_streams());
    let base = full.base_locator();
    assert_eq!(full.resolve_ref(&ObjRef { num: 8, gen: 0 }, &base).unwrap(), Object::new_string(b"a"));
    assert_eq!(full.resolve_ref(&ObjRef { num: 9, gen: 0 }, &base).unwrap(), nine);
    assert_eq!(full.resolve_ref(&ObjRef { num: 9, gen: 0 }, &base).unwrap(), nine);
    let objs = full.objects();
    let nums: Vec<u64> = objs.iter().map(|(o, _)| o.num).collect();
    assert_eq!(nums, vec![1, 7, 8, 9, 10]);
    assert_eq!(objs[2].1.as_ref().unwrap().0, Object::new_string(b"a"));
}

#[test]
fn base_test_read_objstm_take() {
    let source = "1 0 obj <</Type/ObjStm /N 3 /First 11 /Length 14>> stream
2 0 3 1 4 2614endstream endobj";
    let mut rdr = BaseReader::new(FileParser::new(source.as_bytes().to_vec()));
    let mut map = std::collections::BTreeMap::new();
    map.insert(1, Record::Used { gen: 0, offset: 0 });
    for n in 2..=4u64 {
        map.insert(n, Record::Compr { num_within: 1, index: (n as u16) - 2 });
    }
    let loc = pdflib::base::XRef { tpe: XRefType::Table, map, dict: Dict::new(), size: 5 };
    assert_eq!(rdr.resolve_ref(&ObjRef { num: 2, gen: 0 }, &loc).unwrap(), Object::Number(Number::Int(6)));
    assert_eq!(rdr.resolve_ref(&ObjRef { num: 3, gen: 0 }, &loc).unwrap(), Object::Number(Number::Int(1)));
    assert_eq!(rdr.resolve_ref(&ObjRef { num: 4, gen: 0 }, &loc).unwrap(), Object::Number(Number::Int(4)));
    assert_eq!(rdr.resolve_ref(&ObjRef { num: 5, gen: 0 }, &loc).unwrap(), Object::Null);
}

fn stream_data(source: &str) -> Vec<u8> {
    let mut rdr = BaseReader::new(FileParser::new(source.as_bytes().to_vec()));
    let stm = rdr.read_uncompressed(0, &ObjRef { num: 1, gen: 0 }).unwrap().into_stream().unwrap();
    rdr.read_stream_data(&stm, &()).unwrap()
}

#[test]
fn base_test_read_stream_overflow() {
    assert_eq!(stream_data("1 0 obj <</Length 10>> stream\n123\nendstream endobj"), b"123\nendstr");
    assert_eq!(stream_data("1 0 obj <</Length 100>> stream\n123\nendstream endobj"), b"123\nendstream endobj");
    assert_eq!(stream_data("1 0 obj <</Length 10>> stream\n123"), b"123");
    assert_eq!(stream_data("1 0 obj <<>> stream\n123\n45endstream endobj"), b"123\n45");
    assert_eq!(stream_data("1 0 obj <<>> stream\n123"), b"123");
}

#[test]
fn read_uncompressed_checks_numbers() {
    let mut rdr = BaseReader::new(FileParser::new(b"1 0 obj 5 endobj".to_vec()));
    assert_eq!(rdr.read_uncompressed(0, &ObjRef { num: 2, gen: 0 }), Err(Error::Parse("object number mismatch")));
    assert_eq!(rdr.read_uncompressed(0, &ObjRef { num: 1, gen: 0 }).unwrap(), Object::Number(Number::Int(5)));
    let mut rdr = BaseReader::new(FileParser::new(b"1 0 obj 5 stream\nx".to_vec()));
    assert_eq!(rdr.read_uncompressed(0, &ObjRef { num: 1, gen: 0 }), Err(Error::Parse("endobj not found")));
    let mut rdr = BaseReader::new(FileParser::new(b"1 0 obj <<>> stream x".to_vec()));
    assert_eq!(rdr.read_uncompressed(0, &ObjRef { num: 1, gen: 0 }), Err(Error::Parse("stream keyword not followed by proper EOL")));
    let mut rdr = BaseReader::new(FileParser::new(b"x 0 obj".to_vec()));
    assert_eq!(rdr.read_uncompressed(0, &ObjRef { num: 1, gen: 0 }), Err(Error::Parse("invalid object number")));
}

#[test]
fn xref_chain_iteration() {
    let (data, _, xref) = sample();
    let mut fp = FileParser::new(data);
    let mut it = BaseReader::read_xref_chain(xref);
    let (off, x) = it.next(&mut fp).unwrap();
    assert_eq!(off, xref);
    assert_eq!(x.size, 5);
    assert!(it.next(&mut fp).is_none());
}

#[test]
fn full_reader_keeps_sections() {
    // An update replaces object 2 and points back to the first table.
    let (mut data, offs, xref1) = sample();
    let o2 = data.len() as u64;
    data.extend_from_slice(b"2 0 obj\n(updated)\nendobj\n");
    let x2 = data.len() as u64;
    data.extend_from_slice(format!("xref\n2 1\n{:010} 00000 n \ntrailer\n<< /Size 5 /Prev {} >>\nstartxref\n{}\n%%EOF\n", o2, xref1, x2).as_bytes());
    let mut rdr = FullReader::new(data);
    assert_eq!(rdr.sections().len(), 2);
    assert_eq!(rdr.sections()[0].0, x2);
    assert_eq!(rdr.sections()[1].0, xref1);
    let base = rdr.base_locator();
    assert_eq!(base, Link { from: 0 });
    let two = ObjRef { num: 2, gen: 0 };
    assert_eq!(rdr.resolve_ref(&two, &base).unwrap(), Object::new_string(b"updated"));
    // From the older section on, object 2 is what it was before the update.
    let older = Link { from: 1 };
    assert!(rdr.resolve_ref(&two, &older).unwrap().as_dict().is_some());
    assert_eq!(rdr.resolve_ref(&ObjRef { num: 4, gen: 0 }, &base).unwrap(), Object::Number(Number::Int(11)));
    assert_eq!(rdr.resolve_ref(&two, &Link { from: 2 }).unwrap(), Object::Null);
    assert_eq!(rdr.resolve(Object::Ref(ObjRef { num: 4, gen: 0 }), &base).unwrap(), Object::Number(Number::Int(11)));

    // The sections in increasing order of offsets, each with its own objects and place.
    let objs = rdr.objects();
    let list: Vec<(u64, usize)> = objs.iter().map(|(r, res)| (r.num, res.as_ref().unwrap().1.from)).collect();
    assert_eq!(list, vec![(1, 1), (2, 1), (3, 1), (4, 1), (2, 0)]);
    assert!(objs[1].1.as_ref().unwrap().0.as_dict().is_some());
    assert_eq!(objs[4].1.as_ref().unwrap().0, Object::new_string(b"updated"));

    let stm = rdr.resolve_ref(&ObjRef { num: 3, gen: 0 }, &base).unwrap().into_stream().unwrap();
    assert_eq!(rdr.read_stream_data(&stm, &base).unwrap(), b"hello world");
    let deep = rdr.resolve_deep(Object::Ref(ObjRef { num: 3, gen: 0 }), &base).unwrap();
    assert_eq!(deep.as_stream().unwrap().dict.lookup(b"Length"), Object::Ref(ObjRef { num: 4, gen: 0 }));
    let _ = offs;
}

#[test]
fn full_reader_without_entry_point() {
    let mut rdr = FullReader::new(b"%PDF-1.4\nnothing here".to_vec());
    assert_eq!(rdr.sections().len(), 0);
    let base = rdr.base_locator();
    assert_eq!(rdr.resolve_ref(&ObjRef { num: 1, gen: 0 }, &base).unwrap(), Object::Null);
    assert!(rdr.objects().is_empty());
    // An entry point whose section cannot be read.
    let mut rdr = FullReader::new(b"%PDF-1.4\nstartxref\n3\n%%EOF\n".to_vec());
    assert_eq!(rdr.sections().len(), 0);
    assert!(rdr.objects().is_empty());
}

#[test]
fn stream_with_unimplemented_filter_is_raw() {
    let (data, _, _) = build(b"", &[
        (1, b"<< /Length 6 /Filter /DCTDecode >>\nstream\n\xff\xd8\xff\xe0ab\nendstream".to_vec()),
        (2, b"<< /Length 4 /Filter [/ASCIIHexDecode /Foo] >>\nstream\n4142\nendstream".to_vec()),
        (3, b"<< /Length 4 /Filter /ASCIIHexDecode >>\nstream\n4142\nendstream".to_vec()),
        (4, b"<< /Length 4 /Filter 7 >>\nstream\n4142\nendstream".to_vec()),
        (5, b"<< /Filter /Foo >>\nstream\nxyz\nendstream".to_vec()),
    ], "");
    let mut rdr = SimpleReader::new(data).unwrap();
    let mut data_of = |n: u64| {
        let stm = rdr.resolve_ref(&ObjRef { num: n, gen: 0 }).unwrap().into_stream().unwrap();
        rdr.read_stream_data(&stm)
    };
    assert_eq!(data_of(1).unwrap(), b"\xff\xd8\xff\xe0ab");
    assert_eq!(data_of(2).unwrap(), b"4142");
    assert_eq!(data_of(3).unwrap(), b"AB");
    assert_eq!(data_of(4), Err(Error::Parse("malformed /Filter")));
    assert_eq!(data_of(5).unwrap(), b"xyz\n");
}

#[test]
fn resolver_defaults() {
    let (data, _, _) = sample();
    let mut rdr = SimpleReader::new(data).unwrap();
    let kids = Resolver::resolve_obj(&mut rdr, Object::Ref(ObjRef { num: 2, gen: 0 })).unwrap();
    assert!(kids.as_dict().is_some());
    assert_eq!(Resolver::resolve_obj(&mut rdr, Object::Bool(true)).unwrap(), Object::Bool(true));
    let deep = Resolver::resolve_deep(&mut rdr, Object::Ref(ObjRef { num: 2, gen: 0 })).unwrap();
    assert_eq!(deep.as_dict().unwrap().lookup(b"Parent").as_dict().unwrap().lookup(b"Count"), Object::Number(Number::Int(1)));
    let arr = Object::Array(vec![Object::Ref(ObjRef { num: 4, gen: 0 }), Object::Null]);
    assert_eq!(Resolver::resolve_deep(&mut rdr, arr).unwrap(), Object::Array(vec![Object::Number(Number::Int(11)), Object::Null]));
    assert_eq!(Resolver::resolve_deep(&mut (), Object::Ref(ObjRef { num: 4, gen: 0 })),
        Err(Error::Parse("no resolver provided for resolving object references")));
    assert_eq!(Resolver::resolve_deep(&mut (), Object::Null).unwrap(), Object::Null);
}

/// A file holding one cross-reference stream object with the given dictionary entries and data.
fn xref_stream_file(entries: &str, data: &[u8]) -> Vec<u8> {
    let mut out = b"%PDF-1.5\n1 0 obj\n<< /Type /XRef ".to_vec();
    out.extend_from_slice(format!("{} /Length {} >>\nstream\n", entries, data.len()).as_bytes());
    out.extend_from_slice(data);
    out.extend_from_slice(b"\nendstream\nendobj\n");
    out
}

#[test]
fn xref_stream_filters_and_parameters() {
    let read = |entries: &str, data: &[u8]| {
        let mut fp = FileParser::new(xref_stream_file(entries, data));
        fp.read_xref_at(0)
    };
    // Parameters must be a dictionary or absent.
    assert_eq!(
        read("/Size 0 /Index [] /W [0 1 0] /Filter [/ASCIIHexDecode] /DecodeParms [null]", b">").map(|x| x.map.len()),
        Err(Error::Parse("malformed xref stream (/DecodeParms)"))
    );
    let x = read("/Size 0 /Index [] /W [0 1 0] /Filter [/ASCIIHexDecode]", b">").unwrap();
    assert!(x.map.is_empty());
    // A single /ASCIIHexDecode decodes the data.
    let x = read("/Size 1 /W [0 1 0] /Filter /ASCIIHexDecode /DecodeParms << >>", b"41>").unwrap();
    assert_eq!(x.map.get(&0), Some(&Record::Used { gen: 0, offset: 0x41 }));
    // A chain of filters, or an unknown one, leaves the data as it is.
    let x = read("/Size 1 /W [0 1 0] /Filter [/ASCIIHexDecode /FlateDecode]", b"A").unwrap();
    assert_eq!(x.map.get(&0), Some(&Record::Used { gen: 0, offset: 0x41 }));
    let x = read("/Size 1 /W [0 1 0] /Filter /Foo", b"A").unwrap();
    assert_eq!(x.map.get(&0), Some(&Record::Used { gen: 0, offset: 0x41 }));
    // The filter is not resolved: a reference is malformed.
    assert_eq!(
        read("/Size 1 /W [0 1 0] /Filter 2 0 R", b"A").map(|x| x.map.len()),
        Err(Error::Parse("malformed /Filter"))
    );
}
