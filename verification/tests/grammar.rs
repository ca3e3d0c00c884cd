use sigma::grammar::{recognize, Fault};
use sigma::span::line_col;

#[test]
fn recognizes_every_part_with_its_range() {
    let t = b"a {{ name? : u32 |> F1 | f_2 }} b";
    let ps = recognize(t).unwrap();
    assert_eq!(ps.len(), 1);
    let p = &ps[0];
    assert_eq!((p.span.start, p.span.end), (2, 31));
    assert_eq!(&t[p.span.start..p.span.end], b"{{ name? : u32 |> F1 | f_2 }}");
    assert_eq!(&t[p.name.start..p.name.end], b"name");
    assert!(p.nullable);
    assert!(p.typed);
    let ty = p.data_type.unwrap();
    assert_eq!(&t[ty.start..ty.end], b"u32");
    assert_eq!(p.functions.len(), 2);
    assert_eq!(&t[p.functions[0].start..p.functions[0].end], b"F1");
    assert_eq!(&t[p.functions[1].start..p.functions[1].end], b"f_2");
}

#[test]
fn recognizes_without_blanks() {
    let t = b"{{x?:str|A|>B}}";
    let ps = recognize(t).unwrap();
    assert_eq!(ps.len(), 1);
    assert_eq!((ps[0].span.start, ps[0].span.end), (0, 15));
    assert_eq!((ps[0].name.start, ps[0].name.end), (2, 3));
    assert!(ps[0].nullable && ps[0].typed);
    assert_eq!(ps[0].functions.len(), 2);
}

#[test]
fn recognizes_placeholders_left_to_right() {
    let t = b"{{a}}{{ b }}\n{{\tc\t}}";
    let ps = recognize(t).unwrap();
    let spans: Vec<(usize, usize)> = ps.iter().map(|p| (p.span.start, p.span.end)).collect();
    assert_eq!(spans, vec![(0, 5), (5, 12), (13, 20)]);
    assert!(ps.iter().all(|p| !p.nullable && !p.typed && p.data_type.is_none()));
}

#[test]
fn colon_without_type_is_recognized_as_typed() {
    let ps = recognize(b"{{ username: }}").unwrap();
    assert!(ps[0].typed);
    assert!(ps[0].data_type.is_none());
}

#[test]
fn plain_text_has_no_placeholder() {
    for t in ["", "abc", "{ x }", "a } } b", "{ {x} }", "}}{"] {
        assert!(recognize(t.as_bytes()).unwrap().is_empty());
    }
}

#[test]
fn faults_point_at_the_offending_byte() {
    let cases: [(&str, Fault, usize); 9] = [
        ("{{ }}", Fault::ExpectedName, 3),
        ("{{", Fault::ExpectedName, 2),
        ("{{ 1x }}", Fault::ExpectedName, 3),
        ("ab {{ x", Fault::ExpectedClose, 7),
        ("{{ x }", Fault::ExpectedClose, 5),
        ("{{ x y }}", Fault::ExpectedClose, 5),
        ("{{ x: 32 }}", Fault::ExpectedClose, 6),
        ("{{ x: str | }}", Fault::ExpectedFunctionName, 12),
        ("{{ x: str | > F }}", Fault::ExpectedFunctionName, 12),
    ];
    for (t, fault, at) in cases {
        let e = recognize(t.as_bytes()).unwrap_err();
        assert_eq!((e.fault, e.at), (fault, at), "{}", t);
    }
}

#[test]
fn identifiers_hold_letters_digits_and_underscores() {
    let t = b"{{ _a1_B2 }}";
    let ps = recognize(t).unwrap();
    assert_eq!(&t[ps[0].name.start..ps[0].name.end], b"_a1_B2");
}

#[test]
fn line_and_column_count_from_one() {
    let t = "ab\ncd\u{e9}f\n\ngh".as_bytes();
    assert_eq!(line_col(t, 0), (1, 1));
    assert_eq!(line_col(t, 2), (1, 3));
    assert_eq!(line_col(t, 3), (2, 1));
    assert_eq!(line_col(t, 5), (2, 3));
    assert_eq!(line_col(t, 7), (2, 4));
    assert_eq!(line_col(t, 9), (3, 1));
    assert_eq!(line_col(t, 10), (4, 1));
    assert_eq!(line_col(t, t.len()), (4, 3));
}
