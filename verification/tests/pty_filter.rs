use rollingpanda::pty_filter::{is_private_csi_intro, ConPtyOutboundFilter};

#[test]
fn passes_plain_text() {
    let mut f = ConPtyOutboundFilter::new();
    assert_eq!(f.process(b"hello"), b"hello");
}

#[test]
fn drops_private_mode_csi() {
    let mut f = ConPtyOutboundFilter::new();
    assert_eq!(f.process(b"\x1b[?31;115h"), b"");
    assert_eq!(f.process(b"\x1b[?28;13h"), b"");
    assert_eq!(f.process(b"\x1b[?25h"), b"");
}

#[test]
fn keeps_sgr_and_cursor() {
    let mut f = ConPtyOutboundFilter::new();
    assert_eq!(f.process(b"\x1b[31m"), b"\x1b[31m");
    assert_eq!(f.process(b"\x1b[2J"), b"\x1b[2J");
}

#[test]
fn splits_across_reads() {
    let mut f = ConPtyOutboundFilter::new();
    assert_eq!(f.process(b"\x1b[?31"), b"");
    assert_eq!(f.process(b";115h"), b"");
    assert_eq!(f.process(b"ok"), b"ok");
}

#[test]
fn holds_back_an_unfinished_sequence() {
    let mut f = ConPtyOutboundFilter::default();
    assert_eq!(f.process(b"a\x1b"), b"a");
    assert_eq!(f.process(b"[3"), b"");
    assert_eq!(f.process(b"1mb"), b"\x1b[31mb");
}

#[test]
fn keeps_escape_pairs() {
    let mut f = ConPtyOutboundFilter::new();
    assert_eq!(f.process(b"\x1b7\x1b\x1bx"), b"\x1b7\x1b\x1bx");
    assert_eq!(f.process(b"\x1b\x1b"), b"\x1b\x1b");
    assert_eq!(f.process(b"x"), b"x");
    assert_eq!(f.process(b"\x1b\x1b\x1b"), b"\x1b\x1b");
    assert_eq!(f.process(b"["), b"");
    assert_eq!(f.process(b"m"), b"\x1b[m");
}

#[test]
fn marker_counts_anywhere_in_the_sequence() {
    let mut f = ConPtyOutboundFilter::new();
    assert_eq!(f.process(b"\x1b[2 q\x1b[>c\x1b[=1h\x1b[<u\x1b[1!p"), b"");
    assert_eq!(f.process(b"\x1b[1?h"), b"");
    assert_eq!(f.process(b"\x1b[m"), b"\x1b[m");
}

#[test]
fn drops_only_the_private_sequence_between_others() {
    let mut f = ConPtyOutboundFilter::new();
    assert_eq!(f.process(b"ab\x1b[1m\x1b[?25lcd\x1b[0m"), b"ab\x1b[1mcd\x1b[0m");
}

#[test]
fn every_cut_gives_the_same_output() {
    let stream: &[u8] = b"x\x1b[?31;115hy\x1b[1mz\x1b7\x1b[2 q\x1b[3Hw";
    let whole = ConPtyOutboundFilter::new().process(stream);
    assert_eq!(whole, b"xy\x1b[1mz\x1b7\x1b[3Hw");
    for cut in 0..=stream.len() {
        let mut f = ConPtyOutboundFilter::new();
        let mut out = f.process(&stream[..cut]);
        out.extend(f.process(&stream[cut..]));
        assert_eq!(out, whole);
    }
}

#[test]
fn filtering_twice_changes_nothing() {
    let stream: &[u8] = b"x\x1b[?31;115hy\x1b[1mz\x1b[?";
    let once = ConPtyOutboundFilter::new().process(stream);
    let twice = ConPtyOutboundFilter::new().process(&once);
    assert_eq!(once, twice);
    assert!(once.len() <= stream.len());
}

#[test]
fn introducers_are_the_five() {
    let found: Vec<u8> = (0..=255).filter(|b| is_private_csi_intro(*b)).collect();
    assert_eq!(found, b"!<=>?");
}

#[test]
fn stray_escape_does_not_save_a_private_sequence() {
    let mut f = ConPtyOutboundFilter::new();
    assert_eq!(f.process(b"\x1b\x1b[?25h"), b"\x1b\x1b");
    assert_eq!(f.process(b"a\x1b\x1b\x1b[?25hb"), b"a\x1b\x1bb");
    assert_eq!(f.process(b"\x1b\x1b[31m"), b"\x1b\x1b[31m");
    assert_eq!(f.process(b"[?25h"), b"[?25h");
}

#[test]
fn escape_inside_a_sequence() {
    let mut f = ConPtyOutboundFilter::new();
    assert_eq!(f.process(b"\x1b[?3\x1bx"), b"");
    assert_eq!(f.process(b"\x1b[3\x1bx"), b"\x1b[3\x1bx");
    assert_eq!(f.process(b"\x1b[3\x1b7m"), b"\x1b[3\x1b7m");
    assert_eq!(f.process(b"\x1b[3\x1b?m"), b"");
    assert_eq!(f.process(b"\x1b[3\x1b\x1bm"), b"\x1b[3\x1b\x1bm");
    assert_eq!(f.process(b"z"), b"z");
}

#[test]
fn sequence_inside_a_sequence() {
    let mut f = ConPtyOutboundFilter::new();
    assert_eq!(f.process(b"\x1b[3\x1b[?25h"), b"");
    assert_eq!(f.process(b"\x1b[?3\x1b[31m"), b"\x1b[31m");
    assert_eq!(f.process(b"\x1b[3\x1b[31m"), b"\x1b[3\x1b[31m");
    assert_eq!(f.process(b"\x1b[1\x1b[?2\x1b[0mz"), b"\x1b[0mz");
}

#[test]
fn dropped_sequences_leave_nothing_to_join() {
    let mut f = ConPtyOutboundFilter::new();
    assert_eq!(f.process(b"\x1b\x1b[?25h[?25h"), b"\x1b\x1b");
    assert_eq!(f.process(b"\x1b[?1h[?25hx"), b"x");
    assert_eq!(f.process(b"[?25h"), b"[?25h");
    assert_eq!(f.process(b"\x1b[3\x1b[?25h?25h"), b"?25h");
}

#[test]
fn bytes_go_through_one_at_a_time() {
    let stream: &[u8] = b"x\x1b[?31h\x1b\x1b[1my\x1b[3\x1b[?2h\x1b7\x1b[3";
    let mut f = ConPtyOutboundFilter::new();
    let mut out = b"before ".to_vec();
    for byte in stream {
        f.process_byte(*byte, &mut out);
    }
    assert_eq!(out, b"before x\x1b\x1b[1my\x1b7");
    f.process_byte(b'm', &mut out);
    assert_eq!(out, b"before x\x1b\x1b[1my\x1b7\x1b[3m");
}

#[test]
fn behind_a_sequence_the_filter_is_as_new() {
    for sequence in [&b"\x1b[31m"[..], b"\x1b[?25h", b"\x1b[3\x1b[?1h", b"\x1b[?3\x1bx"] {
        for next in [&b"[?25h"[..], b"\x1b[?25h", b"a\x1b[1mb", b"\x1b\x1b"] {
            let mut used = ConPtyOutboundFilter::new();
            used.process(sequence);
            assert_eq!(used.process(next), ConPtyOutboundFilter::new().process(next));
        }
    }
}

#[test]
fn no_stream_lets_a_private_sequence_through() {
    let letters = [0x1bu8, b'[', b'?', b'3', b'h'];
    for code in 0..78125usize {
        let mut rest = code;
        let mut stream = Vec::new();
        for _ in 0..7 {
            stream.push(letters[rest % 5]);
            rest /= 5;
        }
        let out = ConPtyOutboundFilter::new().process(&stream);
        let mut i = 0;
        while i + 1 < out.len() {
            if out[i] == 0x1b && out[i + 1] == b'[' {
                let mut j = i + 2;
                while j < out.len() && (out[j] == b'3' || out[j] == b'?') {
                    j += 1;
                }
                let ends = j < out.len() && out[j] != 0x1b;
                assert!(!(ends && out[i + 2..j].contains(&b'?')));
            }
            i += 1;
        }
    }
}
