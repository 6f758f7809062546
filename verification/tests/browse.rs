use pdflib::preview::preview;
use pdflib::base::{Dict, Error, Name, Number, ObjRef, Object};
use pdflib::browse::{parse_command, select, split_line, Browser, Command, Complaint};
use pdflib::pages::find_page;
use pdflib::pretty::pretty;
use pdflib::reader::simple::SimpleReader;

/// A file made of the given objects (numbered from 1) with a classical table.
fn file(objs: &[&str], trailer_extra: &str) -> Vec<u8> {
    let mut out = b"%PDF-1.4\n".to_vec();
    let mut offs = Vec::new();
    for (i, body) in objs.iter().enumerate() {
        offs.push(out.len());
        out.extend_from_slice(format!("{} 0 obj\n{}\nendobj\n", i + 1, body).as_bytes());
    }
    let xref = out.len();
    out.extend_from_slice(format!("xref\n0 {}\n0000000000 65535 f \n", objs.len() + 1).as_bytes());
    for o in &offs {
        out.extend_from_slice(format!("{:010} 00000 n \n", o).as_bytes());
    }
    out.extend_from_slice(
        format!("trailer\n<< /Size {} {} >>\nstartxref\n{}\n%%EOF\n", objs.len() + 1, trailer_extra, xref)
            .as_bytes(),
    );
    out
}

/// Catalog 1, page tree 2 with page 3 and the subtree 4 (pages 5 and 6), a content stream 7.
fn tree() -> Vec<u8> {
    file(
        &[
            "<< /Type /Catalog /Pages 2 0 R >>",
            "<< /Type /Pages /Kids [3 0 R 4 0 R] /Count 3 >>",
            "<< /Type /Page /Parent 2 0 R /Contents 7 0 R >>",
            "<< /Type /Pages /Parent 2 0 R /Kids [5 0 R 6 0 R] /Count 2 >>",
            "<< /Type /Page /Parent 4 0 R >>",
            "<< /Type /Page /Parent 4 0 R >>",
            "<< /Length 5 >>\nstream\nBT ET\nendstream",
        ],
        "/Root 1 0 R",
    )
}

fn r(num: u64) -> ObjRef {
    ObjRef { num, gen: 0 }
}

fn catalog(rdr: &mut SimpleReader) -> Dict {
    rdr.resolve_ref(&r(1)).unwrap().into_dict().unwrap()
}

#[test]
fn find_page_walks_the_tree() {
    let mut rdr = SimpleReader::new(tree()).unwrap();
    let root = catalog(&mut rdr);
    // A page is only picked from a node whose kids are all pages: page 3 sits beside a
    // subtree, and the walk stops at it as at a node without kids.
    assert_eq!(find_page(&mut rdr, &root, 1), Err(Error::Parse("Could not read page tree.")));
    assert_eq!(find_page(&mut rdr, &root, 2), Ok(r(5)));
    assert_eq!(find_page(&mut rdr, &root, 3), Ok(r(6)));
    assert_eq!(find_page(&mut rdr, &root, 4), Err(Error::Parse("Page number out of range.")));
    assert_eq!(find_page(&mut rdr, &root, 0), Err(Error::Parse("Page number out of range.")));
    assert_eq!(find_page(&mut rdr, &Dict::new(), 1), Err(Error::Parse("Could not find /Pages.")));
}

#[test]
fn find_page_checks_the_tree() {
    // A kid whose /Parent is another node.
    let data = file(
        &[
            "<< /Pages 2 0 R >>",
            "<< /Type /Pages /Kids [3 0 R] /Count 2 >>",
            "<< /Type /Page /Parent 1 0 R >>",
        ],
        "/Root 1 0 R",
    );
    let mut rdr = SimpleReader::new(data).unwrap();
    let root = catalog(&mut rdr);
    assert_eq!(find_page(&mut rdr, &root, 1), Err(Error::Parse("malformed page tree (/Parent)")));

    // A kid of an unknown type, and one without a type.
    let data = file(
        &[
            "<< /Pages 2 0 R >>",
            "<< /Type /Pages /Kids [3 0 R] /Count 2 >>",
            "<< /Type /Font /Parent 2 0 R >>",
        ],
        "/Root 1 0 R",
    );
    let mut rdr = SimpleReader::new(data).unwrap();
    let root = catalog(&mut rdr);
    assert_eq!(find_page(&mut rdr, &root, 1), Err(Error::Parse("malformed page tree (/Type)")));
    let data = file(
        &[
            "<< /Pages 2 0 R >>",
            "<< /Type /Pages /Kids [3 0 R] /Count 2 >>",
            "<< /Parent 2 0 R >>",
        ],
        "/Root 1 0 R",
    );
    let mut rdr = SimpleReader::new(data).unwrap();
    let root = catalog(&mut rdr);
    assert_eq!(find_page(&mut rdr, &root, 1), Err(Error::Parse("malformed page tree")));

    // Two nodes that are each other's kid: the walk would go on forever.
    let data = file(
        &[
            "<< /Pages 2 0 R >>",
            "<< /Type /Pages /Parent 3 0 R /Kids [3 0 R] /Count 2 >>",
            "<< /Type /Pages /Parent 2 0 R /Kids [2 0 R] /Count 2 >>",
        ],
        "/Root 1 0 R",
    );
    let mut rdr = SimpleReader::new(data).unwrap();
    let root = catalog(&mut rdr);
    assert_eq!(find_page(&mut rdr, &root, 1), Err(Error::Parse("page tree walk does not end")));

    // Kids that hold no pages, passed over again and again.
    let data = file(
        &[
            "<< /Pages 2 0 R >>",
            "<< /Type /Pages /Kids [3 0 R 4 0 R] /Count 5 >>",
            "<< /Type /Pages /Parent 2 0 R /Kids [] /Count 0 >>",
            "<< /Type /Pages /Parent 2 0 R /Kids [5 0 R] /Count 1 >>",
            "<< /Type /Page /Parent 4 0 R >>",
        ],
        "/Root 1 0 R",
    );
    let mut rdr = SimpleReader::new(data).unwrap();
    let root = catalog(&mut rdr);
    assert_eq!(find_page(&mut rdr, &root, 3), Ok(r(5)));
}

#[test]
fn split_and_parse_commands() {
    assert_eq!(split_line(b"a  b"), vec![b"a".to_vec(), b"".to_vec(), b"b".to_vec()]);
    assert_eq!(split_line(b""), vec![b"".to_vec()]);
    assert!(matches!(parse_command(b"top"), Command::Top));
    assert!(matches!(parse_command(b"root"), Command::Root));
    assert!(matches!(parse_command(b"up"), Command::Up));
    assert!(matches!(parse_command(b"stream"), Command::Stream));
    assert!(matches!(parse_command(b"page 3"), Command::Page(a) if a == b"3"));
    assert!(matches!(parse_command(b"/Kids [1]"), Command::Path(ws) if ws.len() == 2));
    assert!(matches!(parse_command(b"[2]"), Command::Path(_)));
    assert!(matches!(parse_command(b"4 0"), Command::Ref(a, b) if a == b"4" && b == b"0"));
    assert!(matches!(parse_command(b"top up"), Command::Ref(_, _)));
    assert!(matches!(parse_command(b""), Command::Unknown));
    assert!(matches!(parse_command(b"page 1 2"), Command::Unknown));
}

#[test]
fn select_follows_paths() {
    let d = Object::Dict(Dict(vec![
        (Name::from(b"A"), Object::Array(vec![Object::Number(Number::Int(7)), Object::Ref(r(4))])),
        (Name::from(b"B"), Object::Bool(true)),
    ]));
    let ws = |s: &[u8]| split_line(s);
    assert!(matches!(select(&d, &ws(b"/A [1]")), Ok(Object::Number(Number::Int(7)))));
    assert!(matches!(select(&d, &ws(b"/A [2]")), Ok(Object::Ref(x)) if x == r(4)));
    assert!(matches!(select(&d, &ws(b"/A [3]")), Ok(Object::Null)));
    assert!(matches!(select(&d, &ws(b"/C")), Ok(Object::Null)));
    assert!(matches!(select(&d, &ws(b"/A [0]")), Err(Complaint::ZeroIndex)));
    assert!(matches!(select(&d, &ws(b"/A [x]")), Err(Complaint::MalformedCommand)));
    assert!(matches!(select(&d, &ws(b"/A [1")), Err(Complaint::MalformedCommand)));
    assert!(matches!(select(&d, &ws(b"/A x")), Err(Complaint::MalformedCommand)));
    assert!(matches!(select(&d, &ws(b"/B /C")), Err(Complaint::NotADict(Object::Bool(true)))));
    assert!(matches!(select(&d, &ws(b"[1]")), Err(Complaint::NotAnArray(_))));
    assert!(matches!(select(&d, &ws(b"/A  [1]")), Err(Complaint::EmptyWord)));
}

#[test]
fn browser_steps() {
    let mut rdr = SimpleReader::new(tree()).unwrap();
    let mut b = Browser::new(&mut rdr).unwrap();
    assert_eq!(b.root_ref, r(1));
    assert!(b.history.is_empty());
    assert!(b.current.as_dict().is_some());

    let rep = b.step(&mut rdr, parse_command(b"root"));
    assert!(rep.show && rep.complaint.is_none());
    assert_eq!(b.history, vec![r(1)]);
    assert_eq!(b.current.as_dict().unwrap().lookup(b"Type"), Object::new_name(b"Catalog"));

    let rep = b.step(&mut rdr, parse_command(b"/Pages"));
    assert!(rep.show);
    assert_eq!(b.history, vec![r(1), r(2)]);

    let rep = b.step(&mut rdr, parse_command(b"/Count"));
    assert!(!rep.show);
    assert_eq!(rep.print, Some(Object::Number(Number::Int(3))));

    let rep = b.step(&mut rdr, parse_command(b"page 2"));
    assert_eq!(rep.page, Some(r(5)));
    assert!(rep.show);
    assert_eq!(b.history, vec![r(1), r(2), r(5)]);

    let rep = b.step(&mut rdr, parse_command(b"up"));
    assert!(rep.show);
    assert_eq!(b.history, vec![r(1), r(2)]);
    assert_eq!(b.current.as_dict().unwrap().lookup(b"Count"), Object::Number(Number::Int(3)));

    let rep = b.step(&mut rdr, parse_command(b"stream"));
    assert!(matches!(rep.complaint, Some(Complaint::NotAStream)));
    assert!(!rep.show);

    let rep = b.step(&mut rdr, parse_command(b"7 0"));
    assert!(rep.show);
    let rep = b.step(&mut rdr, parse_command(b"stream"));
    assert_eq!(rep.pager, Some(b"BT ET".to_vec()));
    assert!(rep.show);

    let rep = b.step(&mut rdr, parse_command(b"x y"));
    assert!(matches!(rep.complaint, Some(Complaint::BadRef)));
    let rep = b.step(&mut rdr, parse_command(b"page x"));
    assert!(matches!(rep.complaint, Some(Complaint::MalformedPage)));
    let rep = b.step(&mut rdr, parse_command(b"page 9"));
    assert!(matches!(rep.complaint, Some(Complaint::Error(Error::Parse("Page number out of range.")))));
    let rep = b.step(&mut rdr, parse_command(b"what"));
    assert!(matches!(rep.complaint, Some(Complaint::Unknown)));
    assert!(rep.show);

    let rep = b.step(&mut rdr, parse_command(b"top"));
    assert!(rep.show);
    assert!(b.history.is_empty());
    assert_eq!(b.current.as_dict().unwrap().lookup(b"Root"), Object::Ref(r(1)));
    let rep = b.step(&mut rdr, parse_command(b"up"));
    assert!(rep.show);
    assert!(b.history.is_empty());
}

#[test]
fn browser_needs_a_catalog() {
    let data = file(&["<< /Type /Catalog >>"], "");
    let mut rdr = SimpleReader::new(data).unwrap();
    assert!(matches!(Browser::new(&mut rdr), Err(Error::Parse("Could not find /Root."))));
    let data = file(&["42"], "/Root 1 0 R");
    let mut rdr = SimpleReader::new(data).unwrap();
    assert!(matches!(Browser::new(&mut rdr), Err(Error::Parse("Could not find /Root."))));
}

#[test]
fn pretty_layout() {
    let d = Object::Dict(Dict(vec![
        (Name::from(b"A"), Object::Array(vec![Object::Number(Number::Int(7)), Object::Ref(r(4))])),
        (Name::from(b"B c"), Object::Bool(true)),
    ]));
    let text = String::from_utf8(pretty(&d, 0)).unwrap();
    assert_eq!(text, "<<\n  /A [\n    [1] 7\n    [2] 4 0 R\n  ]\n  /B#20c true\n>>\n");
    let text = String::from_utf8(pretty(&Object::Null, 3)).unwrap();
    assert_eq!(text, "null\n");
    let text = String::from_utf8(pretty(&Object::Dict(Dict::new()), 1)).unwrap();
    assert_eq!(text, "<<\n  >>\n");
}

#[test]
fn preview_marks_and_stops() {
    assert_eq!(preview(b""), b"\n");
    assert_eq!(preview(b"ab\n"), b"ab\n");
    assert_eq!(preview(b"a\x00b"), b"a\x1b[7m<00>\x1b[0mb\n");
    assert_eq!(preview(b"\xff"), b"\x1b[7m<ff>\x1b[0m\n");
    let mut many = vec![b'x'; 1000];
    assert_eq!(preview(&many), [vec![b'x'; 1000], b"\n".to_vec()].concat());
    many.push(b'y');
    many.push(b'z');
    assert_eq!(preview(&many), [vec![b'x'; 1000], b"y...\n".to_vec()].concat());
    let specials = vec![1u8; 12];
    let mut expect = Vec::new();
    for _ in 0..11 {
        expect.extend_from_slice(b"\x1b[7m<01>\x1b[0m");
    }
    expect.extend_from_slice(b"...\n");
    assert_eq!(preview(&specials), expect);
}

#[test]
fn split_words_join_back() {
    for line in [&b"a  b"[..], b"", b" ", b"/Kids [1] ", b"page 3"] {
        let words = split_line(line);
        assert_eq!(words.join(&b' '), line.to_vec());
        assert!(words.iter().all(|w| !w.contains(&b' ')));
    }
}

#[test]
fn up_undoes_a_reference() {
    let mut rdr = SimpleReader::new(tree()).unwrap();
    let mut b = Browser::new(&mut rdr).unwrap();
    b.step(&mut rdr, parse_command(b"root"));
    let before_history = b.history.clone();
    let before_current = b.current.duplicate();
    let rep = b.step(&mut rdr, parse_command(b"4 0"));
    assert!(rep.show);
    assert_eq!(b.history, vec![r(1), r(4)]);
    let rep = b.step(&mut rdr, parse_command(b"up"));
    assert!(rep.show && rep.complaint.is_none() && rep.page.is_none());
    assert_eq!(b.history, before_history);
    assert_eq!(b.current, before_current);
    // The current object stays what the last reference of the history resolves to.
    b.step(&mut rdr, parse_command(b"/Pages"));
    b.step(&mut rdr, parse_command(b"/Kids [2]"));
    let last = *b.history.last().unwrap();
    assert_eq!(last, r(4));
    assert_eq!(rdr.resolve_ref(&last).unwrap(), b.current);
}
