use can_dbc::lexical::{line_ending_at, recognize_float_at, take_while1_at, ByteClass};
use can_dbc::ParseError;

fn all_inputs(alphabet: &[u8], max_len: usize) -> Vec<Vec<u8>> {
    let mut out = vec![vec![]];
    let mut layer = vec![vec![]];
    for _ in 0..max_len {
        let mut next = Vec::new();
        for w in &layer {
            for &c in alphabet {
                let mut v = w.clone();
                v.push(c);
                next.push(v);
            }
        }
        out.extend(next.iter().cloned());
        layer = next;
    }
    out
}

fn nom_len(r: nom::IResult<&[u8], &[u8]>, n: usize) -> Result<usize, ParseError> {
    match r {
        Ok((rest, _)) => Ok(n - rest.len()),
        Err(nom::Err::Incomplete(_)) => Err(ParseError::Incomplete),
        Err(_) => Err(ParseError::Error),
    }
}

#[test]
fn float_from_any_position() {
    for w in all_inputs(b"1.e+-E ;", 6) {
        let ours = recognize_float_at(&w, 0);
        let theirs = nom_len(nom::recognize_float(&w[..]), w.len());
        assert_eq!(ours, theirs, "input {:?}", String::from_utf8_lossy(&w));
        let mut shifted = b"x".to_vec();
        shifted.extend_from_slice(&w);
        assert_eq!(recognize_float_at(&shifted, 1), theirs.map(|n| n + 1));
    }
}

#[test]
fn digit_space_multispace_line_ending_match_nom() {
    for w in all_inputs(b"0 \t\r\na", 5) {
        assert_eq!(take_while1_at(&w, 0, ByteClass::Digit), nom_len(nom::digit(&w[..]), w.len()));
        assert_eq!(take_while1_at(&w, 0, ByteClass::Blank), nom_len(nom::space(&w[..]), w.len()));
        assert_eq!(
            take_while1_at(&w, 0, ByteClass::Whitespace),
            nom_len(nom::multispace(&w[..]), w.len())
        );
        assert_eq!(line_ending_at(&w, 0), nom_len(nom::line_ending(&w[..]), w.len()));
    }
}

#[test]
fn every_recognized_number_is_an_f64() {
    for w in all_inputs(b"1.e+-E ", 6) {
        if let Ok(n) = recognize_float_at(&w, 0) {
            let text = std::str::from_utf8(&w[..n]).unwrap();
            assert!(text.parse::<f64>().is_ok(), "text {:?}", text);
            assert!(nom::double(&w[..]).is_ok());
        }
    }
}
