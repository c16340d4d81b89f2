use streampager::overstrike::{convert_overstrike, line_spans};
use streampager::line::Span::{
    Control, Hyperlink, Ignore, Invalid, LineDrawing, Match, SgrSequence, Text, Unprintable, CRLF, LF, TAB,
};
use streampager::line::{parse_line, parse_spans, Span};
use termwiz::cell::Intensity;
use termwiz::color::ColorSpec;
use termwiz::escape::csi::Sgr;

#[test]
fn test_parse_spans() {
    assert_eq!(parse_spans(b"hello", None), vec![Text("hello".to_string())]);
    assert_eq!(
        parse_spans("Wíth Únícódé".as_bytes(), None),
        vec![Text("Wíth Únícódé".to_string())]
    );
    assert_eq!(
        parse_spans(b"Truncated\xE0", None),
        vec![Text("Truncated".to_string()), Invalid(224)]
    );
    assert_eq!(
        parse_spans(b"Truncated\xE0\x80", None),
        vec![Text("Truncated".to_string()), Invalid(224), Invalid(128)]
    );
    assert_eq!(
        parse_spans(b"Internal\xE0Error", None),
        vec![
            Text("Internal".to_string()),
            Invalid(224),
            Text("Error".to_string())
        ]
    );
    assert_eq!(
        parse_spans(b"\x84StartingError", None),
        vec![Invalid(132), Text("StartingError".to_string())]
    );
    assert_eq!(
        parse_spans(b"Internal\xE0\x80Error", None),
        vec![
            Text("Internal".to_string()),
            Invalid(224),
            Invalid(128),
            Text("Error".to_string())
        ]
    );
    assert_eq!(
        parse_spans(b"TerminatingControl\x1F", None),
        vec![Text("TerminatingControl".to_string()), Control(31)]
    );
    assert_eq!(
        parse_spans(b"Internal\x02Control", None),
        vec![
            Text("Internal".to_string()),
            Control(2),
            Text("Control".to_string())
        ]
    );
    assert_eq!(
        parse_spans(b"\x1AStartingControl", None),
        vec![Control(26), Text("StartingControl".to_string())]
    );
    assert_eq!(
        parse_spans(b"\x1B[1mBold!\x1B[m", None),
        vec![
            SgrSequence(vec![Sgr::Intensity(Intensity::Bold)]),
            Text("Bold!".to_string()),
            SgrSequence(vec![Sgr::Reset])
        ]
    );
    assert_eq!(
        parse_spans(
            b"Multi\x1B[31;7m-colored \x1B[36;1mtext\x1B[42;1m line",
            None
        ),
        vec![
            Text("Multi".to_string()),
            SgrSequence(vec![
                Sgr::Foreground(ColorSpec::PaletteIndex(1)),
                Sgr::Inverse(true)
            ]),
            Text("-colored ".to_string()),
            SgrSequence(vec![
                Sgr::Foreground(ColorSpec::PaletteIndex(6)),
                Sgr::Intensity(Intensity::Bold)
            ]),
            Text("text".to_string()),
            SgrSequence(vec![
                Sgr::Background(ColorSpec::PaletteIndex(2)),
                Sgr::Intensity(Intensity::Bold)
            ]),
            Text(" line".to_string())
        ]
    );
    assert_eq!(
        parse_spans(b"Terminating LF\n", None),
        vec![Text("Terminating LF".to_string()), LF]
    );
    assert_eq!(
        parse_spans(b"Terminating CRLF\r\n", None),
        vec![Text("Terminating CRLF".to_string()), CRLF]
    );

    assert_eq!(
        parse_spans(b"Terminating CR\r", None),
        vec![Text("Terminating CR".to_string()), Control(13)]
    );

    assert_eq!(
        parse_spans(b"Internal\rCR", None),
        vec![
            Text("Internal".to_string()),
            Control(13),
            Text("CR".to_string())
        ]
    );
    assert_eq!(
        parse_spans(b"Internal\nLF", None),
        vec![Text("Internal".to_string()), LF, Text("LF".to_string())]
    );
    assert_eq!(
        parse_spans(b"Internal\r\nCRLF", None),
        vec![Text("Internal".to_string()), CRLF, Text("CRLF".to_string())]
    );
}

#[test]
fn every_byte_is_in_one_span() {
    let inputs: [&[u8]; 5] = [
        b"",
        b"plain\ttext\n",
        b"\x1B(0qqq\x1B(B\xff\xfe end",
        b"\x1B[2J cleared \x1B]8;;http://x\x1B\\link\x1B]8;;\x1B\\",
        "e\u{301}\u{200b}x".as_bytes(),
    ];
    for data in inputs.iter() {
        let spans = parse_line(data, None);
        let mut at = 0;
        for s in &spans {
            assert_eq!(s.start, at);
            assert!(s.end > s.start);
            at = s.end;
        }
        assert_eq!(at, data.len());
    }
}

#[test]
fn special_spans() {
    assert_eq!(
        parse_spans(b"\x1B(0q\x1B(B", None),
        vec![LineDrawing(true), Text("q".to_string()), LineDrawing(false)]
    );
    assert_eq!(parse_spans(b"a\x1B[2Jb", None)[1], Ignore(b"\x1B[2J".to_vec()));
    assert_eq!(parse_spans("\u{200b}".as_bytes(), None), vec![Unprintable("\u{200b}".to_string())]);
    assert_eq!(parse_spans(b"x\ty", Some(3)), vec![Match("x".to_string(), 3), TAB, Match("y".to_string(), 3)]);
    let link: Vec<Span> = parse_spans(b"\x1B]8;;http://x\x1B\\", None);
    assert!(matches!(link[0], Hyperlink(Some(_))));
}

#[test]
fn overstrike_folds_into_bold_and_underline() {
    assert_eq!(convert_overstrike(b"a\x08ab"), b"\x1b[1ma\x1b[22mb".to_vec());
    assert_eq!(convert_overstrike(b"_\x08x"), b"\x1b[4mx\x1b[24m".to_vec());
    assert_eq!(convert_overstrike(b"a\x08b"), b"a\x08b".to_vec());
    assert_eq!(
        line_spans(b"B\x08Bold"),
        vec![
            SgrSequence(vec![Sgr::Intensity(Intensity::Bold)]),
            Text("B".to_string()),
            SgrSequence(vec![Sgr::Intensity(Intensity::Normal)]),
            Text("old".to_string()),
        ]
    );
}
