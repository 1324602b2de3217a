use toyterm::sixel_codec::parser::{numeric, parameters, parse};
use toyterm::sixel_codec::{decode, default_palette, Color, Op};
use toyterm::stream::CharStream;

fn stream(s: &str) -> CharStream {
    CharStream::new(s.chars().collect())
}

#[test]
fn test_parse_numeric() {
    let mut itr = stream("012345");
    let x = numeric(&mut itr);
    assert_eq!(x, 12345);
    let mut itr = stream("0000000");
    let x = numeric(&mut itr);
    assert_eq!(x, 0);
    let mut itr = stream("9876543210");
    let x = numeric(&mut itr);
    assert_eq!(x, 9876543210);
    let mut itr = stream("10000000000000000000000000000000000000000");
    let x = numeric(&mut itr);
    assert_eq!(x, u64::max_value());

    let mut itr = stream("123ABC99999999999999999999999X456");
    let x = numeric(&mut itr);
    assert_eq!(x, 123);
    assert_eq!(itr.next(), Some('A'));
    assert_eq!(itr.next(), Some('B'));
    let x = numeric(&mut itr);
    assert_eq!(x, 0);
    assert_eq!(itr.next(), Some('C'));
    let x = numeric(&mut itr);
    assert_eq!(x, u64::max_value());
    assert_eq!(itr.next(), Some('X'));
    let x = numeric(&mut itr);
    assert_eq!(x, 456);
    assert_eq!(itr.next(), None);
}

#[test]
fn test_parameters() {
    let mut itr = stream("1;2;3");
    let ps = parameters(&mut itr);
    assert_eq!(ps, vec![1, 2, 3]);

    let mut itr = stream("1");
    let ps = parameters(&mut itr);
    assert_eq!(ps, vec![1]);

    let mut itr = stream("");
    let ps = parameters(&mut itr);
    assert_eq!(ps, Vec::<u64>::new());
}

#[test]
fn test_parse_sixel() {
    let mut itr = stream("?");
    assert_eq!(parse(&mut itr), Some(Op::Sixel { bits: 0, rep: 1 }));
    let mut itr = stream("@");
    assert_eq!(parse(&mut itr), Some(Op::Sixel { bits: 1, rep: 1 }));
    let mut itr = stream("A");
    assert_eq!(parse(&mut itr), Some(Op::Sixel { bits: 2, rep: 1 }));
    let mut itr = stream("~");
    assert_eq!(parse(&mut itr), Some(Op::Sixel { bits: 63, rep: 1 }));
    let mut itr = stream("!123~");
    assert_eq!(parse(&mut itr), Some(Op::Sixel { bits: 63, rep: 123 }));
}

#[test]
fn test_parse_raster_attributes() {
    let mut itr = stream("\"1;2;3;4");
    assert_eq!(parse(&mut itr), Some(Op::RasterAttributes(1, 2, 3, 4)));
}

#[test]
fn test_parse_cr() {
    let mut itr = stream("$");
    assert_eq!(parse(&mut itr), Some(Op::CarriageReturn));
}

#[test]
fn test_parse_nl() {
    let mut itr = stream("-");
    assert_eq!(parse(&mut itr), Some(Op::NextLine));
}

#[test]
fn test_parse_use_color() {
    let mut itr = stream("#0");
    assert_eq!(parse(&mut itr), Some(Op::UseColor(0)));
    let mut itr = stream("#1");
    assert_eq!(parse(&mut itr), Some(Op::UseColor(1)));
    let mut itr = stream("#123");
    assert_eq!(parse(&mut itr), Some(Op::UseColor(123)));
}

#[test]
fn test_parse_set_color() {
    let mut itr = stream("#0;2;0;0;0");
    assert_eq!(parse(&mut itr), Some(Op::SetColor(0, Color::new(0, 0, 0))));
    let mut itr = stream("#1;2;100;100;100");
    assert_eq!(parse(&mut itr), Some(Op::SetColor(1, Color::new(255, 255, 255))));
}

#[test]
fn test_parse() {
    let mut itr = stream("\x1b\\");
    assert_eq!(parse(&mut itr), Some(Op::Finish));

    let mut itr =
        stream("\"1;1;10;10#0;2;100;0;0#1;2;0;100;0#2;2;0;0;100#0~~-#1~~-#2~~\x1b\\xyz");
    let mut ops: Vec<Op> = vec![];
    while let Some(op) = parse(&mut itr) {
        ops.push(op);
        if op == Op::Finish {
            break;
        }
    }
    assert_eq!(
        ops,
        vec![
            Op::RasterAttributes(1, 1, 10, 10),
            Op::SetColor(0, Color::new(255, 0, 0)),
            Op::SetColor(1, Color::new(0, 255, 0)),
            Op::SetColor(2, Color::new(0, 0, 255)),
            Op::UseColor(0),
            Op::Sixel { bits: 63, rep: 1 },
            Op::Sixel { bits: 63, rep: 1 },
            Op::NextLine,
            Op::UseColor(1),
            Op::Sixel { bits: 63, rep: 1 },
            Op::Sixel { bits: 63, rep: 1 },
            Op::NextLine,
            Op::UseColor(2),
            Op::Sixel { bits: 63, rep: 1 },
            Op::Sixel { bits: 63, rep: 1 },
            Op::Finish
        ]
    );
    assert_eq!(itr.next(), Some('x'));
    assert_eq!(itr.next(), Some('y'));
    assert_eq!(itr.next(), Some('z'));
    assert_eq!(itr.next(), None);
}

#[test]
fn lib_test_decode() {
    let mut palette = default_palette();

    let b = "\"1;1;6;6#0;2;100;0;0#1;2;0;100;0#2;2;0;0;100#0~~!4?$#1??!2~??$#2????~~\x1b\\";
    let mut itr = stream(b);
    let image = decode(&mut itr, &mut palette, [0, 1, 2, 3], 6, None);
    assert_eq!(image.width, 6);
    assert_eq!(image.height, 6);
    assert_eq!(
        image.buf,
        vec![
            /* row 0 */ 255, 255, 0, 0, 255, 255, 0, 0, 255, 0, 255, 0, 255, 0, 255, 0, 255,
            0, 0, 255, 255, 0, 0, 255, /* row 1 */ 255, 255, 0, 0, 255, 255, 0, 0, 255, 0,
            255, 0, 255, 0, 255, 0, 255, 0, 0, 255, 255, 0, 0, 255, /* row 2 */ 255, 255, 0,
            0, 255, 255, 0, 0, 255, 0, 255, 0, 255, 0, 255, 0, 255, 0, 0, 255, 255, 0, 0, 255,
            /* row 3 */ 255, 255, 0, 0, 255, 255, 0, 0, 255, 0, 255, 0, 255, 0, 255, 0, 255,
            0, 0, 255, 255, 0, 0, 255, /* row 4 */ 255, 255, 0, 0, 255, 255, 0, 0, 255, 0,
            255, 0, 255, 0, 255, 0, 255, 0, 0, 255, 255, 0, 0, 255, /* row 5 */ 255, 255, 0,
            0, 255, 255, 0, 0, 255, 0, 255, 0, 255, 0, 255, 0, 255, 0, 0, 255, 255, 0, 0, 255,
        ]
    );

    let b = "\"1;1;10;10\x1b\\";
    let mut itr = stream(b);
    let image = decode(&mut itr, &mut palette, [0, 1, 2, 3], 6, None);
    assert_eq!(image.width, 10);
    assert_eq!(image.height, 12);

    let b = "~~~~~~-~~~~~~\x1b\\";
    let mut itr = stream(b);
    let image = decode(&mut itr, &mut palette, [0, 1, 2, 3], 6, None);
    assert_eq!(image.width, 6);
    assert_eq!(image.height, 12);

    let b = "\"1;1;6;6~~~~~~-~~~~~~-???-!6~\x1b\\";
    let mut itr = stream(b);
    let image = decode(&mut itr, &mut palette, [0, 1, 2, 3], 6, None);
    assert_eq!(image.width, 6);
    assert_eq!(image.height, 24);

    let b = "\"2;2;10;10\x1b\\";
    let mut itr = stream(b);
    let image = decode(&mut itr, &mut palette, [0, 1, 2, 3], 6, None);
    assert_eq!(image.width, 20);
    assert_eq!(image.height, 24);

    let b = "\"2;3;6;6~~~~~~-~~~~~~-???-!6~\x1b\\";
    let mut itr = stream(b);
    let image = decode(&mut itr, &mut palette, [0, 1, 2, 3], 6, None);
    assert_eq!(image.width, 18);
    assert_eq!(image.height, 48);
}
