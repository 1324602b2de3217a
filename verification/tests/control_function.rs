use toyterm::control_function::{Function, Parser};

fn feed_all(p: &mut Parser, s: &str) -> Vec<String> {
    let mut out = Vec::new();
    for ch in s.chars() {
        if let Some(f) = p.feed(ch) {
            out.push(format!("{:?}", f));
        }
    }
    out
}

#[test]
fn plain_text_comes_out_as_characters() {
    let mut p = Parser::default();
    assert_eq!(feed_all(&mut p, "a\u{3042}~"), vec!["GraphicChar('a')", "GraphicChar('\u{3042}')", "GraphicChar('~')"]);
    assert!(matches!(p.feed('z'), Some(Function::GraphicChar('z'))));
}

#[test]
fn control_characters_and_sequences() {
    let mut p = Parser::default();
    assert_eq!(feed_all(&mut p, "\r\n\x07"), vec!["CR", "LF", "BEL"]);
    assert_eq!(feed_all(&mut p, "\x1b[2J"), vec!["ED(2)"]);
    assert_eq!(feed_all(&mut p, "\x1b[6n"), vec!["DSR(6)"]);
    assert_eq!(feed_all(&mut p, "\x1b[3;5H"), vec!["CUP(3, 5)"]);
    assert_eq!(feed_all(&mut p, "x"), vec!["GraphicChar('x')"]);
}

#[test]
fn cursor_saving_and_hvp_sequences() {
    let mut p = Parser::default();
    assert_eq!(feed_all(&mut p, "\x1b7a\x1b8"), vec!["DECSC", "GraphicChar('a')", "DECRC"]);
    assert_eq!(feed_all(&mut p, "\x1b[3;5f\x1b[4f"), vec!["HVP(3, 5)", "HVP(4, 1)"]);
}
