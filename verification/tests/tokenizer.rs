use pdflib::bp::ByteProvider;
use pdflib::tk::{read_token, read_token_nonempty, Tokenizer};

fn check_spaced_tokens() {
    let mut tkn = Tokenizer::from_bytes(b"abc  <<g,%k\r\nn");
    assert_eq!(tkn.read_token().unwrap(), b"abc");
    assert_eq!(tkn.read_token().unwrap(), b" ");
    assert_eq!(tkn.read_token().unwrap(), b"<<");
    assert_eq!(tkn.read_token().unwrap(), b"g,");
    assert_eq!(tkn.read_token().unwrap(), b" ");
    assert_eq!(tkn.read_token().unwrap(), b" ");
    assert_eq!(tkn.read_token().unwrap(), b"n");
    assert!(tkn.read_token().is_err());

    let mut tkn = Tokenizer::from_bytes(b"A%1\rB%2\nC");
    assert_eq!(tkn.read_token().unwrap(), b"A");
    assert_eq!(tkn.read_token().unwrap(), b" ");
    assert_eq!(tkn.read_token().unwrap(), b" ");
    assert_eq!(tkn.read_token().unwrap(), b"B");
    assert_eq!(tkn.read_token().unwrap(), b" ");
    assert_eq!(tkn.read_token().unwrap(), b" ");
    assert_eq!(tkn.read_token().unwrap(), b"C");

    let mut tkn = Tokenizer::from_bytes(b"A%1\r %2\nB");
    assert_eq!(tkn.read_token_nonempty().unwrap(), b"A");
    assert_eq!(tkn.read_token_nonempty().unwrap(), b"B");
}

#[test]
fn lib_test_tokenizer() {
    let mut bytes = ByteProvider::from_bytes(b"abc  <<g,%k\r\nn");
    assert_eq!(read_token(&mut bytes).unwrap(), b"abc");
    assert_eq!(read_token(&mut bytes).unwrap(), b" ");
    assert_eq!(read_token(&mut bytes).unwrap(), b"<<");
    assert_eq!(read_token(&mut bytes).unwrap(), b"g,");
    assert_eq!(read_token(&mut bytes).unwrap(), b" ");
    assert_eq!(read_token(&mut bytes).unwrap(), b" ");
    assert_eq!(read_token(&mut bytes).unwrap(), b"n");
    assert!(read_token(&mut bytes).is_err());

    let mut bytes = ByteProvider::from_bytes(b"A%1\rB%2\nC");
    assert_eq!(read_token(&mut bytes).unwrap(), b"A");
    assert_eq!(read_token(&mut bytes).unwrap(), b" ");
    assert_eq!(read_token(&mut bytes).unwrap(), b" ");
    assert_eq!(read_token(&mut bytes).unwrap(), b"B");
    assert_eq!(read_token(&mut bytes).unwrap(), b" ");
    assert_eq!(read_token(&mut bytes).unwrap(), b" ");
    assert_eq!(read_token(&mut bytes).unwrap(), b"C");

    let mut bytes = ByteProvider::from_bytes(b"A%1\r %2\nB");
    assert_eq!(read_token_nonempty(&mut bytes).unwrap(), b"A");
    assert_eq!(read_token_nonempty(&mut bytes).unwrap(), b"B");
}

#[test]
fn parser_test_tokenizer() {
    check_spaced_tokens();
}

#[test]
fn tk_test_tokenizer() {
    let mut tkn = ByteProvider::from_bytes(b"abc  <<g,%k\r\nn");
    assert_eq!(tkn.read_token().unwrap(), b"abc");
    assert_eq!(tkn.read_token().unwrap(), b"<<");
    assert_eq!(tkn.read_token().unwrap(), b"g,");
    assert_eq!(tkn.read_token().unwrap(), b"n");
    assert!(tkn.read_token().is_err());

    let mut tkn = ByteProvider::from_bytes(b"A %1\r B%2\n\rC");
    assert_eq!(tkn.read_token().unwrap(), b"A");
    assert_eq!(tkn.read_token().unwrap(), b"B");
    assert_eq!(tkn.read_token().unwrap(), b"C");

    let mut tkn = ByteProvider::from_bytes(b"a\r\nb\nc\rd \ne\n\r");
    assert_eq!(tkn.read_token().unwrap(), b"a");
    assert!(tkn.read_eol().is_ok());
    assert_eq!(tkn.read_token().unwrap(), b"b");
    assert!(tkn.read_eol().is_ok());
    assert_eq!(tkn.read_token().unwrap(), b"c");
    assert!(tkn.read_eol().is_ok());
    assert_eq!(tkn.read_token().unwrap(), b"d");
    assert!(tkn.read_eol().is_err());
    assert_eq!(tkn.read_token().unwrap(), b"e");
    assert!(tkn.read_eol().is_ok());
    assert!(tkn.read_eol().is_ok());
    assert!(tkn.read_eol().is_err());
}

#[test]
fn parser_test_read_line() {
    let mut bytes = ByteProvider::from_bytes(b"line 1\nline 2\rline 3\r\nline 4\n\rline 5");
    assert_eq!(bytes.read_line().unwrap(), b"line 1");
    assert_eq!(bytes.read_line().unwrap(), b"line 2");
    assert_eq!(bytes.read_line().unwrap(), b"line 3");
    assert_eq!(bytes.read_line().unwrap(), b"line 4");
    assert_eq!(bytes.read_line().unwrap(), b"");
    assert_eq!(bytes.read_line().unwrap(), b"line 5");
    assert!(bytes.read_line().is_err());

    let mut bytes = ByteProvider::from_bytes(b"line 1\nline 2\rline 3\r\nline 4\n\rline 5");
    bytes.skip_past_eol().unwrap();
    bytes.skip_past_eol().unwrap();
    bytes.skip_past_eol().unwrap();
    bytes.skip_past_eol().unwrap();
    assert_eq!(bytes.read_line().unwrap(), b"");
    assert!(bytes.skip_past_eol().is_err());
}

#[test]
fn bp_test_read_line() {
    let mut bytes = ByteProvider::from_bytes(b"line 1\nline 2\rline 3\r\nline 4\n\rline 5");
    assert_eq!(bytes.read_line_excl().unwrap(), b"line 1");
    assert_eq!(bytes.read_line_excl().unwrap(), b"line 2");
    assert_eq!(bytes.read_line_excl().unwrap(), b"line 3");
    assert_eq!(bytes.read_line_excl().unwrap(), b"line 4");
    assert_eq!(bytes.read_line_excl().unwrap(), b"");
    assert_eq!(bytes.read_line_excl().unwrap(), b"line 5");
    assert!(bytes.read_line_excl().is_err());

    let mut bytes = ByteProvider::from_bytes(b"line 1\nline 2\rline 3\r\nline 4\n\rline 5");
    assert_eq!(bytes.read_line_incl().unwrap(), b"line 1\n");
    assert_eq!(bytes.read_line_incl().unwrap(), b"line 2\r");
    assert_eq!(bytes.read_line_incl().unwrap(), b"line 3\r\n");
    assert_eq!(bytes.read_line_incl().unwrap(), b"line 4\n");
    assert_eq!(bytes.read_line_incl().unwrap(), b"\r");
    assert_eq!(bytes.read_line_incl().unwrap(), b"line 5");
    assert!(bytes.read_line_incl().is_err());

    let mut bytes = ByteProvider::from_bytes(b"line 1\nline 2\rline 3\r\nline 4\n\rline 5");
    bytes.skip_past_eol().unwrap();
    bytes.skip_past_eol().unwrap();
    bytes.skip_past_eol().unwrap();
    bytes.skip_past_eol().unwrap();
    assert_eq!(bytes.read_line_excl().unwrap(), b"");
    assert!(bytes.skip_past_eol().is_err());
}

#[test]
fn tokenizer_unread_then_next() {
    let mut tkn = Tokenizer::from_bytes(b"1 2 R");
    let a = tkn.next().unwrap();
    assert_eq!(a, b"1");
    let b = tkn.next().unwrap();
    assert_eq!(b, b"2");
    tkn.unread(b);
    tkn.unread(a);
    assert_eq!(tkn.next().unwrap(), b"1");
    assert_eq!(tkn.next().unwrap(), b"2");
    assert_eq!(tkn.next().unwrap(), b"R");
    assert!(tkn.next().is_err());
}

#[test]
fn byte_provider_basics() {
    let mut bp = ByteProvider::from_bytes(b"ab");
    assert_eq!(bp.peek(), Some(b'a'));
    assert_eq!(bp.next_or_eof().unwrap(), b'a');
    assert_eq!(bp.next_if_eq(b'x'), None);
    assert_eq!(bp.next_if_eq(b'b'), Some(b'b'));
    assert_eq!(bp.peek(), None);
    assert!(bp.next_or_eof().is_err());
    bp.seek_to(0);
    assert_eq!(bp.read_exact(2).unwrap(), b"ab");
    bp.seek_to(1);
    assert!(bp.read_exact(2).is_err());
    bp.seek_to(0);
    assert_eq!(bp.read_to_end(), b"ab");
    assert_eq!(bp.read_to_end(), b"");
}

#[test]
fn byte_provider_next_if() {
    let mut bp = ByteProvider::from_bytes(b"<<a");
    assert_eq!(bp.next_if(|c| c == b'<'), Some(b'<'));
    assert_eq!(bp.next_if(|c| c == b'<'), Some(b'<'));
    assert_eq!(bp.next_if(|c| c == b'<'), None);
    assert_eq!(bp.pos(), 2);
    assert_eq!(bp.next_if(|c| c.is_ascii_alphabetic()), Some(b'a'));
    assert_eq!(bp.next_if(|_| true), None);
}

#[test]
fn read_lines_concatenate_to_rest() {
    let data: &[u8] = b"xa\r\nb\nc\rd\r\r\ne";
    for start in 0..data.len() as u64 {
        let mut incl = ByteProvider::from_bytes(data);
        incl.seek_to(start);
        let mut excl = ByteProvider::from_bytes(data);
        excl.seek_to(start);
        let mut joined: Vec<u8> = Vec::new();
        loop {
            match incl.read_line_incl() {
                Ok(line) => {
                    let body = excl.read_line_excl().unwrap();
                    assert!(!line.is_empty());
                    assert!(line.starts_with(&body));
                    let marker = &line[body.len()..];
                    assert!(marker.is_empty() || marker == b"\n" || marker == b"\r" || marker == b"\r\n");
                    assert!(!body.contains(&b'\r') && !body.contains(&b'\n'));
                    joined.extend_from_slice(&line);
                }
                Err(e) => {
                    assert_eq!(e, pdflib::base::Error::IO(pdflib::base::IoError::UnexpectedEof));
                    assert!(excl.read_line_excl().is_err());
                    break;
                }
            }
        }
        assert_eq!(joined, &data[start as usize..]);
    }
    let mut bp = ByteProvider::from_bytes(b"a\r\nb\nc\rd");
    assert_eq!(bp.read_line_incl().unwrap(), b"a\r\n");
    assert_eq!(bp.read_line_incl().unwrap(), b"b\n");
    assert_eq!(bp.read_line_incl().unwrap(), b"c\r");
    assert_eq!(bp.read_line_incl().unwrap(), b"d");
    assert!(bp.read_line_incl().is_err());
}
