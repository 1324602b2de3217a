use toyterm::sixel::Parser;
use toyterm::stream::CharStream;

fn stream(s: &str) -> CharStream {
    CharStream::new(s.chars().collect())
}

#[test]
fn sixel_test_decode() {
    let b = "\"1;1;6;6#0;2;100;0;0#1;2;0;100;0#2;2;0;0;100#0~~!4?$#1??!2~??$#2????~~\x1b\\";
    let mut itr = stream(b);

    let mut parser = Parser::new();
    let image = parser.decode(&mut itr);

    assert_eq!(image.width, 6);
    assert_eq!(image.height, 6);
    assert_eq!(
        image.data,
        vec![
            255, 0, 0, 255, 0, 0, 0, 255, 0, 0, 255, 0, 0, 0, 255, 0, 0, 255, //
            255, 0, 0, 255, 0, 0, 0, 255, 0, 0, 255, 0, 0, 0, 255, 0, 0, 255, //
            255, 0, 0, 255, 0, 0, 0, 255, 0, 0, 255, 0, 0, 0, 255, 0, 0, 255, //
            255, 0, 0, 255, 0, 0, 0, 255, 0, 0, 255, 0, 0, 0, 255, 0, 0, 255, //
            255, 0, 0, 255, 0, 0, 0, 255, 0, 0, 255, 0, 0, 0, 255, 0, 0, 255, //
            255, 0, 0, 255, 0, 0, 0, 255, 0, 0, 255, 0, 0, 0, 255, 0, 0, 255,
        ]
    );

    let b = "\"1;1;10;10\x1b\\";
    let mut itr = stream(b);
    let image = parser.decode(&mut itr);
    assert_eq!(image.width, 10);
    assert_eq!(image.height, 12);

    let b = "~~~~~~-~~~~~~\x1b\\";
    let mut itr = stream(b);
    let image = parser.decode(&mut itr);
    assert_eq!(image.width, 6);
    assert_eq!(image.height, 12);

    let b = "\"1;1;6;6~~~~~~-~~~~~~-???-!6~\x1b\\";
    let mut itr = stream(b);
    let image = parser.decode(&mut itr);
    assert_eq!(image.width, 6);
    assert_eq!(image.height, 24);

    let b = "\"2;2;10;10\x1b\\";
    let mut itr = stream(b);
    let image = parser.decode(&mut itr);
    assert_eq!(image.width, 20);
    assert_eq!(image.height, 24);

    let b = "\"2;3;6;6~~~~~~-~~~~~~-???-!6~\x1b\\";
    let mut itr = stream(b);
    let image = parser.decode(&mut itr);
    assert_eq!(image.width, 18);
    assert_eq!(image.height, 48);
}
