//! Which descriptions a session can settle on.

use ferrite_sfu::sfu::payloads::{can_settle, find_fault, Fault, Format, Line, Payload};

/// A session with two formats, neither of them settled.
fn open() -> Vec<Format> {
    vec![
        Format { number: 111, resend: None, red: None, settled: false },
        Format { number: 96, resend: Some(97), red: None, settled: false },
    ]
}

/// The same, with the first settled.
fn settled() -> Vec<Format> {
    let mut formats = open();
    formats[0].settled = true;
    formats[0].red = Some(63);
    formats
}

fn payload(format: u8, number: u8, resend: Option<u8>) -> Payload {
    Payload { format, number: Some(number), resend }
}

fn line(mid: &str, payloads: Vec<Payload>) -> Line {
    Line { mid: mid.to_string(), media: true, known: false, sends: true, receives: true, payloads }
}

fn sendonly(mid: &str, payloads: Vec<Payload>) -> Line {
    Line { receives: false, ..line(mid, payloads) }
}

fn fits(formats: Vec<Format>, lines: Vec<Line>) -> bool {
    can_settle(&formats, &lines, true)
}

#[test]
fn every_number_of_its_own_fits() {
    let lines = || vec![line("0", vec![payload(111, 111, None)]), line("1", vec![payload(96, 96, Some(97))])];
    assert!(fits(open(), lines()));
    assert!(fits(settled(), lines()));
    assert!(fits(open(), vec![]));
}

#[test]
fn one_number_for_two_formats_does_not_fit() {
    // On two lines, on one line, and against what is settled.
    assert!(!fits(
        open(),
        vec![line("0", vec![payload(111, 50, None)]), line("1", vec![payload(96, 50, None)])],
    ));
    assert!(!fits(open(), vec![line("0", vec![payload(111, 50, None), payload(96, 50, None)])]));
    assert!(!fits(settled(), vec![line("0", vec![payload(96, 111, None)])]));
    assert!(!fits(settled(), vec![line("0", vec![payload(96, 50, Some(111))])]));
    assert!(!fits(settled(), vec![line("0", vec![payload(96, 63, None)])]));
    assert!(fits(settled(), vec![line("0", vec![payload(96, 64, None)])]));
}

#[test]
fn a_format_is_settled_once() {
    // The second line has no say any more.
    assert!(fits(
        open(),
        vec![
            line("0", vec![payload(111, 50, None)]),
            line("1", vec![payload(96, 60, None)]),
            line("2", vec![payload(96, 50, None)]),
        ],
    ));
    assert!(fits(settled(), vec![line("0", vec![payload(111, 96, None)])]));
}

#[test]
fn a_number_for_media_is_none_for_retransmissions() {
    assert!(!fits(open(), vec![line("0", vec![payload(96, 50, Some(50))])]));
    assert!(fits(open(), vec![sendonly("0", vec![payload(96, 50, Some(50))])]));
}

#[test]
fn what_is_proposed_can_be_moved() {
    let clash = || vec![payload(96, 111, None)];
    assert!(fits(settled(), vec![sendonly("0", clash())]));
    // Nobody knows where to: then no number is safe for another format.
    let mut formats = settled();
    formats.push(Format { number: 45, resend: None, red: None, settled: false });
    let then = line("1", vec![payload(45, 45, None)]);
    assert!(!fits(formats, vec![sendonly("0", clash()), then]));
    let mut formats = settled();
    formats.push(Format { number: 45, resend: None, red: None, settled: false });
    let then = line("1", vec![payload(45, 45, None)]);
    assert!(fits(formats, vec![sendonly("0", vec![payload(96, 96, None)]), then]));
}

#[test]
fn inactive_lines_dictate_their_numbers() {
    let inactive = Line { sends: false, receives: false, ..line("0", vec![payload(96, 111, None)]) };
    assert!(!fits(settled(), vec![inactive]));
}

#[test]
fn only_new_lines_for_media_count() {
    let clash = || line("0", vec![payload(96, 111, None)]);
    assert!(fits(settled(), vec![Line { media: false, ..clash() }]));
    // An answer cannot bring back an m-line as new; an offer can.
    let known = || vec![Line { known: true, ..clash() }];
    assert!(can_settle(&settled(), &known(), false));
    assert!(!can_settle(&settled(), &known(), true));
    // A format that is not offered is not settled either.
    let none = Payload { format: 96, number: None, resend: None };
    assert!(fits(settled(), vec![line("0", vec![none])]));
    assert!(!fits(settled(), vec![line("0", vec![none]), clash()]));
}

#[test]
fn the_faults_of_an_answer() {
    let awaited = || vec!["a".to_string(), "b".to_string()];
    let fault = |lines: Vec<Line>| find_fault(&settled(), &awaited(), &lines);
    let plain = |mid: &str| line(mid, vec![payload(111, 111, None)]);
    let clash = |mid: &str| line(mid, vec![payload(96, 111, None)]);
    assert_eq!(fault(vec![plain("a"), plain("b")]), None);
    assert_eq!(fault(vec![plain("b"), plain("a")]), None);
    assert_eq!(fault(vec![plain("a"), plain("a")]), Some(Fault::Repeats));
    assert_eq!(fault(vec![clash("a"), clash("a")]), Some(Fault::Repeats));
    assert_eq!(fault(vec![plain("a"), clash("b")]), Some(Fault::Clashes));
    // These the session turns down by itself.
    assert_eq!(fault(vec![clash("a")]), None);
    assert_eq!(fault(vec![plain("a"), plain("a"), plain("b")]), None);
    assert_eq!(fault(vec![clash("a"), clash("c")]), None);
    // M-lines that the session has, and those for other things, do not count.
    let known = Line { known: true, ..plain("a") };
    let other = Line { media: false, ..plain("a") };
    assert_eq!(fault(vec![known, plain("a"), plain("b"), other]), None);
}
