//! Filters ConPTY output on Windows before it is sent to the SSH client.
//!
//! ConPTY synchronizes Win32 console modes using CSI sequences such as
//! `ESC [ ? 31 ; 115 h`. Linux terminals and OpenSSH do not expect these on
//! the wire and may print them literally or leave the client TTY corrupt.
//!
//! The stream is read as a series of *units*: a plain byte, an escape pair
//! (`ESC` and one byte other than `[`), or a control sequence. `ESC [` opens a
//! control sequence wherever it comes: also when that `ESC` was the second byte
//! of an escape pair and has been sent to the client already, and also inside an
//! unfinished control sequence. A control sequence goes up to and with its final
//! byte. It is dropped whole if it holds a private marker; if it holds one and is
//! cut off by `ESC [`, what stands before that `ESC` is dropped. All other units
//! pass unchanged. Until a unit is complete, it is held back.
use vstd::prelude::*;

verus! {

/// The byte that opens an escape pair or a control sequence.
pub const ESC: u8 = 0x1b;

/// The byte that turns an escape into a control sequence.
pub const CSI_OPEN: u8 = 0x5b;

/// Bytes that end a control sequence.
pub open spec fn is_final(byte: u8) -> bool {
    0x40 <= byte <= 0x7e
}

/// One of `?`, `>`, `!`, `=` and `<`.
pub open spec fn is_intro(byte: u8) -> bool {
    byte == 0x3f || byte == 0x3e || byte == 0x21 || byte == 0x3d || byte == 0x3c
}

/// Bytes whose presence makes a control sequence private: the introducers and
/// the intermediate bytes.
pub open spec fn is_private_marker(byte: u8) -> bool {
    is_intro(byte) || 0x20 <= byte <= 0x2f
}

/// A private marker stands in `s`.
pub open spec fn has_marker(s: Seq<u8>) -> bool {
    exists|i: int| 0 <= i < s.len() && is_private_marker(#[trigger] s[i])
}

/// `u` is one complete control sequence, as a terminal reads it.
pub open spec fn is_csi(u: Seq<u8>) -> bool {
    &&& u.len() >= 3
    &&& u[0] == ESC
    &&& u[1] == CSI_OPEN
    &&& is_final(u.last())
    &&& forall|i: int| 2 <= i < u.len() - 1 ==> !is_final(#[trigger] u[i]) && u[i] != ESC
}

/// `u` is a complete control sequence that must not reach the client.
pub open spec fn is_private_csi(u: Seq<u8>) -> bool {
    is_csi(u) && has_marker(u)
}

/// `s` begins with a control sequence. If `sent`, an escape byte is the last
/// that the client got, and `[` alone opens one.
pub open spec fn opens_csi(sent: bool, s: Seq<u8>) -> bool {
    ||| s.len() >= 2 && s[0] == ESC && s[1] == CSI_OPEN
    ||| sent && s.len() >= 1 && s[0] == CSI_OPEN
}

/// Where the control sequence that `s` begins with ends, looking from `i` on; 0
/// if it does not end in `s`. At `ESC [` it goes on, unless what stands before
/// holds a private marker.
pub open spec fn csi_end(s: Seq<u8>, i: int) -> int
    decreases s.len() - i,
{
    if i >= s.len() {
        0
    } else if s[i] == CSI_OPEN && s[i - 1] == ESC {
        if has_marker(s.take(i)) {
            i - 1
        } else {
            csi_end(s, i + 1)
        }
    } else if is_final(s[i]) {
        i + 1
    } else {
        csi_end(s, i + 1)
    }
}

/// Length of the unit that `s` begins with; 0 if `s` does not hold a whole one.
pub open spec fn first_unit(sent: bool, s: Seq<u8>) -> int {
    if s.len() == 0 {
        0
    } else if s[0] == ESC {
        if s.len() == 1 {
            0
        } else if s[1] != CSI_OPEN {
            2
        } else {
            csi_end(s, 2)
        }
    } else if sent && s[0] == CSI_OPEN {
        csi_end(s, 1)
    } else {
        1
    }
}

/// The unit `u`, finished or not, is a control sequence with a private marker.
pub open spec fn is_private(sent: bool, u: Seq<u8>) -> bool {
    opens_csi(sent, u) && has_marker(u)
}

/// What the client gets of one unit.
pub open spec fn passed(sent: bool, u: Seq<u8>) -> Seq<u8> {
    if is_private(sent, u) {
        Seq::empty()
    } else {
        u
    }
}

/// Whether an escape byte is the last that the client got, once the unit `u` is
/// passed or dropped.
pub open spec fn sent_behind(sent: bool, u: Seq<u8>) -> bool {
    if is_private(sent, u) {
        sent
    } else {
        u.last() == ESC
    }
}

/// What the client gets of the stream `s`.
pub open spec fn emitted_from(sent: bool, s: Seq<u8>) -> Seq<u8>
    decreases s.len(),
{
    let n = first_unit(sent, s);
    if 0 < n <= s.len() {
        passed(sent, s.take(n)) + emitted_from(sent_behind(sent, s.take(n)), s.skip(n))
    } else {
        Seq::empty()
    }
}

/// What a filter knows of the bytes that it has seen.
#[verifier::ext_equal]
pub struct FilterModel {
    /// The unfinished unit at the end of the stream, held back for now.
    pub held: Seq<u8>,
    /// An escape byte is the last that the client got.
    pub escape_sent: bool,
}

/// What a filter knows behind the stream `s`.
pub open spec fn model_from(sent: bool, s: Seq<u8>) -> FilterModel
    decreases s.len(),
{
    let n = first_unit(sent, s);
    if 0 < n <= s.len() {
        model_from(sent_behind(sent, s.take(n)), s.skip(n))
    } else {
        FilterModel { held: s, escape_sent: sent }
    }
}

/// A filter that has seen nothing.
pub open spec fn fresh_filter() -> FilterModel {
    FilterModel { held: Seq::empty(), escape_sent: false }
}

/// What the client gets when `input` comes.
pub open spec fn output(filter: FilterModel, input: Seq<u8>) -> Seq<u8> {
    emitted_from(filter.escape_sent, filter.held + input)
}

/// The filter behind `input`.
pub open spec fn filter_behind(filter: FilterModel, input: Seq<u8>) -> FilterModel {
    model_from(filter.escape_sent, filter.held + input)
}

/// What the client gets of a whole stream.
pub open spec fn emitted(s: Seq<u8>) -> Seq<u8> {
    emitted_from(false, s)
}

/// The filter behind a whole stream.
pub open spec fn filter_after(s: Seq<u8>) -> FilterModel {
    model_from(false, s)
}

#[derive(Debug, Clone, Copy, PartialEq, Eq, Structural)]
enum State {
    Ground,
    Escape,
    Csi,
}

/// Streaming filter; its view is what it holds back, and whether the client's
/// last byte is an escape.
#[derive(Debug)]
pub struct ConPtyOutboundFilter {
    state: State,
    csi_buf: Vec<u8>,
    /// Drop the current CSI (ConPTY private / device-control sequences).
    csi_private: bool,
    /// An escape byte is the last that the client got.
    escape_sent: bool,
}

impl View for ConPtyOutboundFilter {
    type V = FilterModel;

    closed spec fn view(&self) -> FilterModel {
        FilterModel { held: self.csi_buf@, escape_sent: self.escape_sent }
    }
}

impl Default for ConPtyOutboundFilter {
    fn default() -> (filter: Self)
        ensures
            filter.wf(),
            filter@ == fresh_filter(),
    {
        let filter = ConPtyOutboundFilter {
            state: State::Ground,
            csi_buf: Vec::new(),
            csi_private: false,
            escape_sent: false,
        };
        assert(filter@.held =~= Seq::<u8>::empty());
        filter
    }
}

impl ConPtyOutboundFilter {
    /// The held bytes are an unfinished unit, and the state and the flag say
    /// what they say.
    pub closed spec fn wf(&self) -> bool {
        let held = self.csi_buf@;
        &&& first_unit(self.escape_sent, held) == 0
        &&& self.csi_private == is_private(self.escape_sent, held)
        &&& self.state == if held.len() == 0 {
            State::Ground
        } else if held == seq![ESC] {
            State::Escape
        } else {
            State::Csi
        }
    }

    /// A filter that has seen nothing yet.
    pub fn new() -> (filter: Self)
        ensures
            filter.wf(),
            filter@ == fresh_filter(),
    {
        Self::default()
    }

    /// Takes the next bytes of the stream and returns what the client gets now.
    pub fn process(&mut self, input: &[u8]) -> (out: Vec<u8>)
        requires
            old(self).wf(),
        ensures
            final(self).wf(),
            out@ == output(old(self)@, input@),
            final(self)@ == filter_behind(old(self)@, input@),
    {
        let ghost start = self@;
        let mut out: Vec<u8> = Vec::with_capacity(input.len());
        let mut i: usize = 0;
        proof {
            assert(start.held + input@.take(0) =~= start.held);
            lemma_no_unit(start.escape_sent, start.held);
        }
        while i < input.len()
            invariant
                i <= input@.len(),
                self.wf(),
                out@ == output(start, input@.take(i as int)),
                self@ == filter_behind(start, input@.take(i as int)),
            decreases input@.len() - i,
        {
            let byte = input[i];
            self.process_byte(byte, &mut out);
            proof {
                law_split(start, input@.take(i as int), seq![byte]);
                assert(input@.take(i as int) + seq![byte] =~= input@.take(i + 1));
            }
            i += 1;
        }
        assert(input@.take(i as int) =~= input@);
        out
    }

    /// Takes the next byte of the stream and appends to `out` what the client
    /// gets now.
    pub fn process_byte(&mut self, byte: u8, out: &mut Vec<u8>)
        requires
            old(self).wf(),
        ensures
            final(self).wf(),
            final(out)@ == old(out)@ + output(old(self)@, seq![byte]),
            final(self)@ == filter_behind(old(self)@, seq![byte]),
            final(out)@ == old(out)@ || final(out)@ == old(out)@ + old(self)@.held + seq![byte],
    {
        proof {
            lemma_step(self.escape_sent, self.csi_buf@, byte);
            assert(self.csi_buf@ + seq![byte] =~= self.csi_buf@.push(byte));
        }
        match self.state {
            State::Ground => {
                if byte == ESC {
                    self.csi_buf.push(byte);
                    self.csi_private = false;
                    self.state = State::Escape;
                } else if self.escape_sent && byte == CSI_OPEN {
                    // The escape of this sequence is with the client already.
                    self.csi_buf.push(byte);
                    self.csi_private = false;
                    self.state = State::Csi;
                } else {
                    out.push(byte);
                    self.escape_sent = false;
                }
            },
            State::Escape => {
                if byte == CSI_OPEN {
                    self.csi_buf.push(byte);
                    self.state = State::Csi;
                } else {
                    out.extend_from_slice(&self.csi_buf);
                    out.push(byte);
                    self.csi_buf.clear();
                    self.escape_sent = byte == ESC;
                    self.state = State::Ground;
                }
            },
            State::Csi => {
                let last = self.csi_buf[self.csi_buf.len() - 1];
                if byte == CSI_OPEN && last == ESC {
                    // The sequence is cut off: nothing of a private one may pass.
                    if self.csi_private {
                        self.csi_buf.clear();
                        self.csi_buf.push(ESC);
                        self.csi_private = false;
                    }
                    self.csi_buf.push(byte);
                } else {
                    self.csi_buf.push(byte);

                    if is_private_csi_intro(byte) || (0x20 <= byte && byte <= 0x2f) {
                        self.csi_private = true;
                    }
                    if 0x40 <= byte && byte <= 0x7e {
                        if !self.csi_private {
                            out.extend_from_slice(&self.csi_buf);
                            self.escape_sent = false;
                        }
                        self.csi_buf.clear();
                        self.csi_private = false;
                        self.state = State::Ground;
                    }
                }
            },
        }
    }
}

/// First parameter byte marking a private/device CSI (e.g. `ESC [ ? … h`).
pub fn is_private_csi_intro(byte: u8) -> (intro: bool)
    ensures
        intro == is_intro(byte),
        intro == (byte == 0x21 || 0x3c <= byte <= 0x3f),
{
    // `?`, `>`, `!`, `=`, `<`
    matches!(byte, 0x3f | 0x3e | 0x21 | 0x3d | 0x3c)
}

proof fn lemma_marker_push(s: Seq<u8>, byte: u8)
    ensures
        has_marker(s.push(byte)) == (has_marker(s) || is_private_marker(byte)),
{
    let t = s.push(byte);
    if has_marker(s) {
        let i = choose|i: int| 0 <= i < s.len() && is_private_marker(#[trigger] s[i]);
        assert(is_private_marker(t[i]));
    }
    if is_private_marker(byte) {
        assert(is_private_marker(t[s.len() as int]));
    }
    if has_marker(t) {
        let i = choose|i: int| 0 <= i < t.len() && is_private_marker(#[trigger] t[i]);
        if i < s.len() {
            assert(is_private_marker(s[i]));
        }
    }
}

/// What `csi_end` says of the bytes up to the end of the sequence.
proof fn lemma_csi_end(s: Seq<u8>, i: int)
    requires
        1 <= i,
    ensures
        ({
            let n = csi_end(s, i);
            &&& n == 0 || i - 1 <= n <= s.len()
            &&& n > 0 && !has_marker(s.take(n)) ==> {
                &&& n > i
                &&& is_final(s[n - 1])
                &&& !(s[n - 1] == CSI_OPEN && s[n - 2] == ESC)
            }
            &&& n == i - 1 && n > 0 ==> s[i - 1] == ESC
        }),
    decreases s.len() - i,
{
    if i < s.len() {
        if s[i] == CSI_OPEN && s[i - 1] == ESC && has_marker(s.take(i)) {
            let m = choose|m: int| 0 <= m < s.take(i).len() && is_private_marker(#[trigger] s.take(i)[m]);
            assert(m != i - 1);
            assert(is_private_marker(s.take(i - 1)[m]));
        } else if s[i] == CSI_OPEN && s[i - 1] == ESC || !is_final(s[i]) {
            lemma_csi_end(s, i + 1);
        }
    }
}

/// More bytes behind a sequence that has ended do not change where it ends.
proof fn lemma_csi_end_prefix(a: Seq<u8>, b: Seq<u8>, i: int)
    requires
        1 <= i,
        csi_end(a, i) > 0,
    ensures
        csi_end(a + b, i) == csi_end(a, i),
    decreases a.len() - i,
{
    assert((a + b).take(i) =~= a.take(i));
    if a[i] == CSI_OPEN && a[i - 1] == ESC {
        if !has_marker(a.take(i)) {
            lemma_csi_end_prefix(a, b, i + 1);
        }
    } else if !is_final(a[i]) {
        lemma_csi_end_prefix(a, b, i + 1);
    }
}

/// A sequence that passes ends where it ends, whatever comes behind it.
proof fn lemma_csi_end_take(s: Seq<u8>, i: int)
    requires
        1 <= i,
        csi_end(s, i) > 0,
        !has_marker(s.take(csi_end(s, i))),
    ensures
        csi_end(s.take(csi_end(s, i)), i) == csi_end(s, i),
    decreases s.len() - i,
{
    lemma_csi_end(s, i);
    let n = csi_end(s, i);
    let u = s.take(n);
    assert(u.take(i) =~= s.take(i));
    if s[i] == CSI_OPEN && s[i - 1] == ESC || !is_final(s[i]) {
        assert(n == csi_end(s, i + 1));
        lemma_csi_end_take(s, i + 1);
    }
}

/// In an unfinished sequence, only the next byte can bring the end.
proof fn lemma_csi_end_open(w: Seq<u8>, byte: u8, i: int)
    requires
        1 <= i <= w.len(),
        csi_end(w, i) == 0,
    ensures
        csi_end(w.push(byte), i) == csi_end(w.push(byte), w.len() as int),
    decreases w.len() - i,
{
    if i < w.len() {
        assert(w.push(byte).take(i) =~= w.take(i));
        if w[i] == CSI_OPEN && w[i - 1] == ESC && has_marker(w.take(i)) {
            // The first byte of a sequence is no marker, so more stands before the escape.
            let m = choose|m: int| 0 <= m < w.take(i).len() && is_private_marker(#[trigger] w.take(i)[m]);
            assert(m != i - 1);
        }
        lemma_csi_end_open(w, byte, i + 1);
    }
}

/// The first unit of a stream is no longer than the stream and does not change
/// when more bytes come. If it passes, the bytes behind it have no part in that.
proof fn lemma_first_unit(sent: bool, a: Seq<u8>, b: Seq<u8>)
    ensures
        0 <= first_unit(sent, a) <= a.len(),
        first_unit(sent, a) > 0 ==> {
            let n = first_unit(sent, a);
            &&& first_unit(sent, a + b) == n
            &&& opens_csi(sent, a.take(n)) == opens_csi(sent, a) || is_private(sent, a.take(n))
            &&& !is_private(sent, a.take(n)) ==> first_unit(sent, a.take(n)) == n
        },
{
    let n = first_unit(sent, a);
    if opens_csi(sent, a) {
        let i: int = if a[0] == ESC {
            2
        } else {
            1
        };
        lemma_csi_end(a, i);
        if n > 0 {
            lemma_csi_end_prefix(a, b, i);
            let u = a.take(n);
            if n == i - 1 {
                assert(a[i - 1] == ESC);
            }
            assert(opens_csi(sent, u));
            if !has_marker(u) {
                lemma_csi_end_take(a, i);
            }
        }
    }
}

proof fn lemma_no_unit(sent: bool, s: Seq<u8>)
    requires
        first_unit(sent, s) == 0,
    ensures
        emitted_from(sent, s) == Seq::<u8>::empty(),
        model_from(sent, s) == (FilterModel { held: s, escape_sent: sent }),
{
}

proof fn lemma_whole_unit(sent: bool, u: Seq<u8>)
    requires
        u.len() > 0,
        first_unit(sent, u) == u.len(),
    ensures
        emitted_from(sent, u) == passed(sent, u),
        model_from(sent, u) == (FilterModel {
            held: Seq::<u8>::empty(),
            escape_sent: sent_behind(sent, u),
        }),
{
    let rest = u.skip(u.len() as int);
    assert(u.take(u.len() as int) =~= u);
    assert(rest =~= Seq::<u8>::empty());
    lemma_no_unit(sent_behind(sent, u), rest);
    assert(emitted_from(sent, u) =~= passed(sent, u));
}

/// What is held back is an unfinished unit.
proof fn lemma_held_is_unfinished(sent: bool, s: Seq<u8>)
    ensures
        first_unit(model_from(sent, s).escape_sent, model_from(sent, s).held) == 0,
    decreases s.len(),
{
    lemma_first_unit(sent, s, Seq::empty());
    let n = first_unit(sent, s);
    if n > 0 {
        lemma_held_is_unfinished(sent_behind(sent, s.take(n)), s.skip(n));
    }
}

/// One more byte completes the unfinished unit `w`.
pub open spec fn completes(sent: bool, w: Seq<u8>, byte: u8) -> bool {
    if w.len() == 0 {
        byte != ESC && !(sent && byte == CSI_OPEN)
    } else if w == seq![ESC] {
        byte != CSI_OPEN
    } else {
        is_final(byte) && !(byte == CSI_OPEN && w.last() == ESC)
    }
}

/// How one more byte changes an unfinished unit.
proof fn lemma_step(sent: bool, w: Seq<u8>, byte: u8)
    requires
        first_unit(sent, w) == 0,
    ensures
        ({
            let seen = w.push(byte);
            let none = Seq::<u8>::empty();
            &&& w.len() > 0 && w != seq![ESC] ==> opens_csi(sent, w)
            &&& w.len() == 0 || w == seq![ESC] ==> !is_private(sent, w)
            &&& has_marker(seen) == (has_marker(w) || is_private_marker(byte))
            &&& first_unit(sent, none) == 0
            &&& first_unit(false, none) == 0
            &&& first_unit(true, none) == 0
            &&& if completes(sent, w, byte) {
                &&& first_unit(sent, seen) == seen.len()
                &&& opens_csi(sent, seen) == opens_csi(sent, w)
                &&& emitted_from(sent, seen) == passed(sent, seen)
                &&& model_from(sent, seen) == (FilterModel {
                    held: none,
                    escape_sent: sent_behind(sent, seen),
                })
            } else if byte == CSI_OPEN && is_private(sent, w) && w.last() == ESC {
                &&& emitted_from(sent, seen) == none
                &&& model_from(sent, seen) == (FilterModel {
                    held: seq![ESC, CSI_OPEN],
                    escape_sent: sent,
                })
                &&& first_unit(sent, seq![ESC, CSI_OPEN]) == 0
                &&& !is_private(sent, seq![ESC, CSI_OPEN])
            } else {
                &&& first_unit(sent, seen) == 0
                &&& emitted_from(sent, seen) == none
                &&& model_from(sent, seen) == (FilterModel { held: seen, escape_sent: sent })
                &&& is_private(sent, seen) == (opens_csi(sent, seen) && has_marker(seen))
                &&& seen == seq![ESC] || opens_csi(sent, seen)
            }
        }),
{
    let seen = w.push(byte);
    let n = w.len() as int;
    lemma_marker_push(w, byte);
    assert(!is_private_marker(ESC) && !is_private_marker(CSI_OPEN));
    if n == 0 {
        assert(!has_marker(w));
        assert(seen =~= seq![byte]);
        if completes(sent, w, byte) {
            lemma_whole_unit(sent, seen);
        } else {
            if byte == CSI_OPEN {
                assert(csi_end(seen, 1) == 0);
            }
            lemma_no_unit(sent, seen);
        }
    } else if w == seq![ESC] {
        assert(seen =~= seq![ESC, byte]);
        if completes(sent, w, byte) {
            lemma_whole_unit(sent, seen);
        } else {
            assert(csi_end(seen, 2) == 0);
            lemma_no_unit(sent, seen);
        }
    } else {
        assert(opens_csi(sent, w)) by {
            if w[0] == ESC && w.len() == 1 {
                assert(w =~= seq![ESC]);
            }
        }
        let i: int = if w[0] == ESC {
            2
        } else {
            1
        };
        assert(opens_csi(sent, seen));
        lemma_csi_end_open(w, byte, i);
        assert(seen.take(n) =~= w);
        assert(first_unit(sent, seen) == csi_end(seen, n));
        assert(csi_end(seen, n + 1) == 0);
        if completes(sent, w, byte) {
            lemma_whole_unit(sent, seen);
        } else if byte == CSI_OPEN && is_private(sent, w) && w.last() == ESC {
            lemma_step_cut(sent, w);
        } else {
            lemma_no_unit(sent, seen);
        }
    }
}

/// How `ESC [` cuts off a private control sequence.
proof fn lemma_step_cut(sent: bool, w: Seq<u8>)
    requires
        is_private(sent, w),
        w.last() == ESC,
        first_unit(sent, w.push(CSI_OPEN)) == w.len() - 1,
    ensures
        emitted_from(sent, w.push(CSI_OPEN)) == Seq::<u8>::empty(),
        model_from(sent, w.push(CSI_OPEN)) == (FilterModel {
            held: seq![ESC, CSI_OPEN],
            escape_sent: sent,
        }),
        first_unit(sent, seq![ESC, CSI_OPEN]) == 0,
        !is_private(sent, seq![ESC, CSI_OPEN]),
{
    let seen = w.push(CSI_OPEN);
    let opener = seq![ESC, CSI_OPEN];
    let front = w.drop_last();
    let n = w.len() - 1;
    assert(seen.take(n) =~= front);
    assert(seen.skip(n) =~= opener);
    assert(front.push(ESC) =~= w);
    lemma_marker_push(front, ESC);
    assert(n >= 1) by {
        if n == 0 {
            assert(front =~= Seq::<u8>::empty());
        }
    }
    assert(opens_csi(sent, front)) by {
        if w[0] == ESC && n == 1 {
            assert(w[1] == CSI_OPEN);
        }
    }
    assert(csi_end(opener, 2) == 0);
    lemma_no_unit(sent, opener);
    assert(!has_marker(opener));
    assert(emitted_from(sent, seen) =~= Seq::<u8>::empty());
}

proof fn lemma_split_from(sent: bool, a: Seq<u8>, b: Seq<u8>)
    ensures
        emitted_from(sent, a + b) == emitted_from(sent, a) + output(model_from(sent, a), b),
        model_from(sent, a + b) == filter_behind(model_from(sent, a), b),
    decreases a.len(),
{
    lemma_first_unit(sent, a, b);
    let n = first_unit(sent, a);
    if n > 0 {
        assert((a + b).take(n) =~= a.take(n));
        assert((a + b).skip(n) =~= a.skip(n) + b);
        lemma_split_from(sent_behind(sent, a.take(n)), a.skip(n), b);
    }
    assert(emitted_from(sent, a + b) =~= emitted_from(sent, a) + output(model_from(sent, a), b));
}

/// How the stream is cut into reads does not matter: filtering `a` and then
/// `b` gives the client what filtering both at once gives, and leaves the
/// filter the same.
pub proof fn law_split(filter: FilterModel, a: Seq<u8>, b: Seq<u8>)
    ensures
        output(filter, a + b) == output(filter, a) + output(filter_behind(filter, a), b),
        filter_behind(filter, a + b) == filter_behind(filter_behind(filter, a), b),
{
    lemma_split_from(filter.escape_sent, filter.held + a, b);
    assert(filter.held + a + b =~= filter.held + (a + b));
}

/// The same of a stream from its beginning.
proof fn lemma_split_stream(a: Seq<u8>, b: Seq<u8>)
    ensures
        emitted(a + b) == emitted(a) + output(filter_after(a), b),
        filter_after(a + b) == filter_behind(filter_after(a), b),
{
    lemma_split_from(false, a, b);
}

/// A new filter gives the client what the laws on whole streams speak of.
pub proof fn law_new_filter(s: Seq<u8>)
    ensures
        output(fresh_filter(), s) == emitted(s),
        filter_behind(fresh_filter(), s) == filter_after(s),
{
    assert(Seq::<u8>::empty() + s =~= s);
}

/// Text without an escape byte passes unchanged, and none of it is held back.
pub proof fn law_plain_text_passes(s: Seq<u8>)
    requires
        !s.contains(ESC),
    ensures
        emitted(s) == s,
        filter_after(s) == fresh_filter(),
    decreases s.len(),
{
    if s.len() > 0 {
        assert(s.contains(s[0]));
        let rest = s.skip(1);
        assert forall|i: int| 0 <= i < rest.len() implies rest[i] != ESC by {
            assert(s.contains(s[i + 1]));
        }
        law_plain_text_passes(rest);
        assert(s.take(1) + rest =~= s);
    } else {
        assert(s =~= Seq::<u8>::empty());
    }
}

/// Plain bytes pass at once, and so do escape pairs, `ESC ESC` among them,
/// wherever between two units they stand. (A `[` behind an escape byte that the
/// client has already got is no plain byte: it opens a control sequence.)
pub proof fn law_plain_bytes_and_pairs_kept(before: Seq<u8>, unit: Seq<u8>)
    requires
        filter_after(before).held == Seq::<u8>::empty(),
        ({
            ||| unit.len() == 1 && unit[0] != ESC && !(filter_after(before).escape_sent && unit[0]
                == CSI_OPEN)
            ||| unit.len() == 2 && unit[0] == ESC && unit[1] != CSI_OPEN
        }),
    ensures
        emitted(before + unit) == emitted(before) + unit,
        filter_after(before + unit) == (FilterModel {
            held: Seq::<u8>::empty(),
            escape_sent: unit.last() == ESC,
        }),
{
    lemma_split_stream(before, unit);
    lemma_whole_unit(filter_after(before).escape_sent, unit);
    assert(Seq::<u8>::empty() + unit =~= unit);
}

/// What is left of an unfinished unit when `ESC [` cuts it off.
pub open spec fn survives(filter: FilterModel) -> Seq<u8> {
    if is_private(filter.escape_sent, filter.held) {
        Seq::empty()
    } else {
        filter.held
    }
}

/// Only an escape byte is held back. A second one completes an escape pair.
pub open spec fn is_lone_escape(filter: FilterModel) -> bool {
    filter.held == seq![ESC]
}

/// The filter behind `ESC [`, and what that makes it emit.
proof fn lemma_open_csi(filter: FilterModel)
    requires
        first_unit(filter.escape_sent, filter.held) == 0,
    ensures
        ({
            let opener = seq![ESC, CSI_OPEN];
            let next = filter_behind(filter, opener);
            if is_lone_escape(filter) {
                &&& output(filter, opener) == seq![ESC, ESC]
                &&& next == (FilterModel { held: seq![CSI_OPEN], escape_sent: true })
            } else {
                &&& output(filter, opener) == Seq::<u8>::empty()
                &&& next == (FilterModel {
                    held: survives(filter) + opener,
                    escape_sent: filter.escape_sent,
                })
            }
        }),
        ({
            let next = filter_behind(filter, seq![ESC, CSI_OPEN]);
            &&& first_unit(next.escape_sent, next.held) == 0
            &&& opens_csi(next.escape_sent, next.held)
            &&& !has_marker(next.held)
            &&& next.held.last() == CSI_OPEN
        }),
{
    let sent = filter.escape_sent;
    let w = filter.held;
    let none = Seq::<u8>::empty();
    let one = seq![ESC];
    let bracket = seq![CSI_OPEN];
    let opener = seq![ESC, CSI_OPEN];
    let mid = filter_behind(filter, one);
    law_split(filter, one, bracket);
    assert(one + bracket =~= opener);
    assert(w + one =~= w.push(ESC));
    lemma_step(sent, w, ESC);
    lemma_held_is_unfinished(sent, w + one);
    lemma_held_is_unfinished(mid.escape_sent, mid.held + bracket);
    assert(mid.held + bracket =~= mid.held.push(CSI_OPEN));
    lemma_step(mid.escape_sent, mid.held, CSI_OPEN);
    assert(!is_private_marker(ESC) && !is_private_marker(CSI_OPEN));
    assert(!has_marker(none));
    lemma_marker_push(none, CSI_OPEN);
    lemma_marker_push(none, ESC);
    lemma_marker_push(one, CSI_OPEN);
    assert(none.push(CSI_OPEN) =~= bracket);
    assert(none.push(ESC) =~= one);
    assert(one.push(CSI_OPEN) =~= opener);
    if is_lone_escape(filter) {
        assert(w.push(ESC) =~= seq![ESC, ESC]);
        assert(output(filter, opener) =~= seq![ESC, ESC]);
    } else {
        assert(mid.held == w.push(ESC));
        assert(w.push(ESC).push(CSI_OPEN) =~= w + opener);
        assert(output(filter, opener) =~= none);
        if w.len() > 0 {
            assert(mid.held != one) by {
                assert(mid.held.len() > 1);
            }
        }
        if is_private(sent, w) {
            assert(none + opener =~= opener);
        }
    }
}

/// Behind `ESC [`, the body of a control sequence is held back.
proof fn lemma_body_held(filter: FilterModel, body: Seq<u8>)
    requires
        first_unit(filter.escape_sent, filter.held) == 0,
        opens_csi(filter.escape_sent, filter.held),
        !has_marker(filter.held),
        filter.held.last() == CSI_OPEN,
        forall|i: int| 0 <= i < body.len() ==> !is_final(#[trigger] body[i]) && body[i] != ESC,
    ensures
        output(filter, body) == Seq::<u8>::empty(),
        filter_behind(filter, body) == (FilterModel { held: filter.held + body, ..filter }),
        first_unit(filter.escape_sent, filter.held + body) == 0,
        opens_csi(filter.escape_sent, filter.held + body),
        has_marker(filter.held + body) == has_marker(body),
    decreases body.len(),
{
    let none = Seq::<u8>::empty();
    if body.len() == 0 {
        assert(filter.held + body =~= filter.held);
        lemma_no_unit(filter.escape_sent, filter.held);
    } else {
        let front = body.drop_last();
        let byte = body.last();
        lemma_body_held(filter, front);
        let h = filter.held + front;
        law_split(filter, front, seq![byte]);
        assert(front + seq![byte] =~= body);
        assert(h + seq![byte] =~= h.push(byte));
        assert(h.push(byte) =~= filter.held + body);
        assert(front.push(byte) =~= body);
        assert(h != seq![ESC]) by {
            if h.len() == 1 {
                assert(h[0] == CSI_OPEN);
            }
        }
        lemma_step(filter.escape_sent, h, byte);
        lemma_marker_push(front, byte);
        assert(none + none =~= none);
    }
}

/// What a control sequence brings about, whatever the filter holds back.
#[verifier::spinoff_prover]
proof fn lemma_csi(filter: FilterModel, csi: Seq<u8>)
    requires
        first_unit(filter.escape_sent, filter.held) == 0,
        is_csi(csi),
    ensures
        ({
            let none = Seq::<u8>::empty();
            if is_private_csi(csi) {
                if is_lone_escape(filter) {
                    &&& output(filter, csi) == seq![ESC, ESC]
                    &&& filter_behind(filter, csi) == (FilterModel { held: none, escape_sent: true })
                } else {
                    &&& output(filter, csi) == none
                    &&& filter_behind(filter, csi) == (FilterModel { held: none, ..filter })
                }
            } else {
                &&& output(filter, csi) == survives(filter) + csi
                &&& filter_behind(filter, csi) == fresh_filter()
            }
        }),
{
    let opener = seq![ESC, CSI_OPEN];
    let n = csi.len() - 1;
    let body = csi.subrange(2, n);
    let last = csi[n];
    lemma_open_csi(filter);
    let next = filter_behind(filter, opener);
    lemma_body_held(next, body);
    law_split(filter, opener, body);
    law_split(filter, opener + body, seq![last]);
    assert(opener + body + seq![last] =~= csi);
    lemma_csi_end_of_body(next, body, last);
    lemma_csi_markers(csi, body, last);
    if is_lone_escape(filter) {
        lemma_lone_escape_is_not_private(filter);
        assert(seq![ESC, ESC] + (seq![CSI_OPEN] + body).push(last) =~= filter.held + csi);
        assert(seq![ESC, ESC] + Seq::<u8>::empty() + Seq::<u8>::empty() =~= seq![ESC, ESC]);
        assert(seq![ESC, ESC] + Seq::<u8>::empty() =~= seq![ESC, ESC]);
    } else {
        assert((survives(filter) + opener + body).push(last) =~= survives(filter) + csi);
        assert(output(filter, csi) =~= output(filter_behind(filter, opener + body), seq![last]));
    }
}

proof fn lemma_lone_escape_is_not_private(filter: FilterModel)
    requires
        is_lone_escape(filter),
    ensures
        survives(filter) == filter.held,
{
}

proof fn lemma_csi_markers(csi: Seq<u8>, body: Seq<u8>, last: u8)
    requires
        is_csi(csi),
        body == csi.subrange(2, csi.len() - 1),
        last == csi.last(),
    ensures
        has_marker(csi) == has_marker(body),
        !is_private_marker(last),
        last != ESC,
{
    if has_marker(csi) {
        let i = choose|i: int| 0 <= i < csi.len() && is_private_marker(#[trigger] csi[i]);
        assert(body[i - 2] == csi[i]);
    }
    if has_marker(body) {
        let i = choose|i: int| 0 <= i < body.len() && is_private_marker(#[trigger] body[i]);
        assert(csi[i + 2] == body[i]);
    }
}

/// How the final byte ends a control sequence of which the body is held back.
proof fn lemma_csi_end_of_body(filter: FilterModel, body: Seq<u8>, last: u8)
    requires
        first_unit(filter.escape_sent, filter.held + body) == 0,
        opens_csi(filter.escape_sent, filter.held + body),
        has_marker(filter.held + body) == has_marker(body),
        filter.held.len() > 0,
        filter.held.last() == CSI_OPEN,
        forall|i: int| 0 <= i < body.len() ==> !is_final(#[trigger] body[i]) && body[i] != ESC,
        is_final(last),
    ensures
        ({
            let open = FilterModel { held: filter.held + body, ..filter };
            let none = Seq::<u8>::empty();
            if has_marker(body) {
                &&& output(open, seq![last]) == none
                &&& filter_behind(open, seq![last]) == (FilterModel { held: none, ..filter })
            } else {
                &&& output(open, seq![last]) == (filter.held + body).push(last)
                &&& filter_behind(open, seq![last]) == fresh_filter()
            }
        }),
{
    let h = filter.held + body;
    assert(h.last() != ESC) by {
        if body.len() > 0 {
            assert(h.last() == body.last());
        } else {
            assert(h.last() == filter.held.last());
        }
    }
    assert(h != seq![ESC]) by {
        assert(seq![ESC].last() == ESC);
    }
    assert(h + seq![last] =~= h.push(last));
    lemma_step(filter.escape_sent, h, last);
}

/// A private control sequence is dropped, wherever it stands, also behind a stray
/// escape byte or an unfinished sequence. Behind a lone `ESC` its own `ESC` still
/// passes, as the second byte of an escape pair; nothing else of it does.
pub proof fn law_private_csi_dropped(before: Seq<u8>, csi: Seq<u8>)
    requires
        is_private_csi(csi),
    ensures
        ({
            let filter = filter_after(before);
            if is_lone_escape(filter) {
                &&& emitted(before + csi) == emitted(before) + seq![ESC, ESC]
                &&& filter_after(before + csi) == (FilterModel {
                    held: Seq::<u8>::empty(),
                    escape_sent: true,
                })
            } else {
                &&& emitted(before + csi) == emitted(before)
                &&& filter_after(before + csi) == (FilterModel {
                    held: Seq::<u8>::empty(),
                    ..filter
                })
            }
        }),
{
    lemma_held_is_unfinished(false, before);
    lemma_csi(filter_after(before), csi);
    lemma_split_stream(before, csi);
    assert(emitted(before) + Seq::<u8>::empty() =~= emitted(before));
}

/// Every other control sequence passes whole, wherever it stands, and the filter
/// is then as new. An unfinished unit in front of it passes with it, unless that
/// is private.
pub proof fn law_other_csi_kept(before: Seq<u8>, csi: Seq<u8>)
    requires
        is_csi(csi),
        !is_private_csi(csi),
    ensures
        emitted(before + csi) == emitted(before) + survives(filter_after(before)) + csi,
        filter_after(before + csi) == fresh_filter(),
{
    lemma_held_is_unfinished(false, before);
    lemma_csi(filter_after(before), csi);
    lemma_split_stream(before, csi);
    assert(emitted(before) + (survives(filter_after(before)) + csi) =~= emitted(before) + survives(
        filter_after(before),
    ) + csi);
}

/// The held bytes `h` open a control sequence without a private marker, and
/// `p` goes on with it: it holds no marker, and no final byte but a `[` behind
/// an `ESC`. All of it is held back.
proof fn lemma_unmarked_held(filter: FilterModel, p: Seq<u8>)
    requires
        first_unit(filter.escape_sent, filter.held) == 0,
        opens_csi(filter.escape_sent, filter.held),
        !has_marker(filter.held),
        !has_marker(p),
        forall|k: int|
            0 <= k < p.len() && is_final(#[trigger] p[k]) ==> p[k] == CSI_OPEN && k > 0 && p[k - 1]
                == ESC,
    ensures
        output(filter, p) == Seq::<u8>::empty(),
        filter_behind(filter, p) == (FilterModel { held: filter.held + p, ..filter }),
        first_unit(filter.escape_sent, filter.held + p) == 0,
        opens_csi(filter.escape_sent, filter.held + p),
        !has_marker(filter.held + p),
    decreases p.len(),
{
    let none = Seq::<u8>::empty();
    if p.len() == 0 {
        assert(filter.held + p =~= filter.held);
        lemma_no_unit(filter.escape_sent, filter.held);
    } else {
        let front = p.drop_last();
        let byte = p.last();
        assert(front.push(byte) =~= p);
        lemma_marker_push(front, byte);
        assert forall|k: int| 0 <= k < front.len() && is_final(#[trigger] front[k]) implies front[k]
            == CSI_OPEN && k > 0 && front[k - 1] == ESC by {
            assert(is_final(p[k]));
            assert(p[k - 1] == front[k - 1]);
        }
        lemma_unmarked_held(filter, front);
        let h = filter.held + front;
        law_split(filter, front, seq![byte]);
        assert(front + seq![byte] =~= p);
        assert(h + seq![byte] =~= h.push(byte));
        assert(h.push(byte) =~= filter.held + p);
        assert(is_final(byte) ==> h.last() == ESC) by {
            if is_final(p[p.len() - 1]) {
                assert(p[p.len() - 2] == ESC);
                assert(h.last() == front.last());
            }
        }
        lemma_step(filter.escape_sent, h, byte);
        assert(none + none =~= none);
    }
}

/// The held bytes open a control sequence without a private marker, and `q`
/// goes on with it without a final byte: it is held back.
proof fn lemma_tail_held(filter: FilterModel, q: Seq<u8>)
    requires
        first_unit(filter.escape_sent, filter.held) == 0,
        opens_csi(filter.escape_sent, filter.held),
        !has_marker(filter.held),
        forall|k: int| 0 <= k < q.len() ==> !is_final(#[trigger] q[k]),
    ensures
        output(filter, q) == Seq::<u8>::empty(),
        filter_behind(filter, q) == (FilterModel { held: filter.held + q, ..filter }),
        first_unit(filter.escape_sent, filter.held + q) == 0,
        opens_csi(filter.escape_sent, filter.held + q),
        has_marker(filter.held + q) == has_marker(q),
    decreases q.len(),
{
    let none = Seq::<u8>::empty();
    if q.len() == 0 {
        assert(filter.held + q =~= filter.held);
        lemma_no_unit(filter.escape_sent, filter.held);
    } else {
        let front = q.drop_last();
        let byte = q.last();
        assert(front.push(byte) =~= q);
        lemma_marker_push(front, byte);
        lemma_tail_held(filter, front);
        let h = filter.held + front;
        law_split(filter, front, seq![byte]);
        assert(front + seq![byte] =~= q);
        assert(h + seq![byte] =~= h.push(byte));
        assert(h.push(byte) =~= filter.held + q);
        lemma_step(filter.escape_sent, h, byte);
        assert(none + none =~= none);
    }
}

/// How a control sequence opens: with `ESC [`, or with `[` where the client has
/// already got the `ESC`.
spec fn opener(late: bool) -> Seq<u8> {
    if late {
        seq![CSI_OPEN]
    } else {
        seq![ESC, CSI_OPEN]
    }
}

/// What the client has got before: two stray escape bytes, or nothing.
spec fn before(stray: bool) -> Seq<u8> {
    if stray {
        seq![ESC, ESC]
    } else {
        Seq::empty()
    }
}

/// The filter behind that.
spec fn between(stray: bool) -> FilterModel {
    FilterModel { held: Seq::empty(), escape_sent: stray }
}

proof fn lemma_before(stray: bool, t: Seq<u8>)
    ensures
        emitted(before(stray)) == before(stray),
        filter_after(before(stray)) == between(stray),
        emitted(before(stray) + t) == before(stray) + output(between(stray), t),
        filter_after(before(stray) + t) == filter_behind(between(stray), t),
{
    let b = before(stray);
    lemma_split_stream(b, t);
    if stray {
        lemma_whole_unit(false, b);
    } else {
        lemma_no_unit(false, b);
    }
}

proof fn lemma_opened(stray: bool, late: bool)
    requires
        late ==> stray,
    ensures
        ({
            let next = filter_behind(between(stray), opener(late));
            &&& output(between(stray), opener(late)) == Seq::<u8>::empty()
            &&& next == (FilterModel { held: opener(late), escape_sent: stray })
            &&& first_unit(stray, opener(late)) == 0
            &&& opens_csi(stray, opener(late))
            &&& !has_marker(opener(late))
        }),
{
    let o = opener(late);
    let none = Seq::<u8>::empty();
    lemma_step(stray, none, ESC);
    lemma_open_csi(between(stray));
    if late {
        lemma_step(stray, none, CSI_OPEN);
        assert(none.push(CSI_OPEN) =~= o);
        assert(none + o =~= o);
        assert(!has_marker(none));
        assert(!is_private_marker(CSI_OPEN));
    } else {
        assert(none + o =~= o);
    }
}

/// A control sequence whose end is not in sight is held back.
proof fn lemma_sequence_held(stray: bool, late: bool, p: Seq<u8>, q: Seq<u8>)
    requires
        late ==> stray,
        !has_marker(p),
        forall|k: int|
            0 <= k < p.len() && is_final(#[trigger] p[k]) ==> p[k] == CSI_OPEN && k > 0 && p[k - 1]
                == ESC,
        forall|k: int| 0 <= k < q.len() ==> !is_final(#[trigger] q[k]),
    ensures
        ({
            let h = opener(late) + p + q;
            &&& output(between(stray), h) == Seq::<u8>::empty()
            &&& filter_behind(between(stray), h) == (FilterModel { held: h, escape_sent: stray })
            &&& first_unit(stray, h) == 0
            &&& opens_csi(stray, h)
            &&& has_marker(h) == has_marker(q)
        }),
{
    let o = opener(late);
    lemma_opened(stray, late);
    let f1 = FilterModel { held: o, escape_sent: stray };
    lemma_unmarked_held(f1, p);
    let f2 = FilterModel { held: o + p, escape_sent: stray };
    lemma_tail_held(f2, q);
    law_split(between(stray), o, p);
    law_split(between(stray), o + p, q);
    assert(Seq::<u8>::empty() + Seq::<u8>::empty() =~= Seq::<u8>::empty());
}

/// How a control sequence ends.
proof fn lemma_sequence_ends(stray: bool, late: bool, p: Seq<u8>, q: Seq<u8>, last: u8)
    requires
        late ==> stray,
        !has_marker(p),
        forall|k: int|
            0 <= k < p.len() && is_final(#[trigger] p[k]) ==> p[k] == CSI_OPEN && k > 0 && p[k - 1]
                == ESC,
        forall|k: int| 0 <= k < q.len() ==> !is_final(#[trigger] q[k]),
        is_final(last),
        !(last == CSI_OPEN && (opener(late) + p + q).last() == ESC),
    ensures
        ({
            let u = opener(late) + p + q + seq![last];
            if has_marker(q) {
                &&& output(between(stray), u) == Seq::<u8>::empty()
                &&& filter_behind(between(stray), u) == between(stray)
            } else {
                &&& output(between(stray), u) == u
                &&& filter_behind(between(stray), u) == fresh_filter()
            }
        }),
{
    let h = opener(late) + p + q;
    lemma_sequence_held(stray, late, p, q);
    law_split(between(stray), h, seq![last]);
    lemma_step(stray, h, last);
    assert(h + seq![last] =~= h.push(last));
    assert(h != seq![ESC]) by {
        assert(h[0] == opener(late)[0]);
        if !late {
            assert(h.len() >= 2);
        }
    }
    assert(Seq::<u8>::empty() + h.push(last) =~= h.push(last));
    assert(Seq::<u8>::empty() + Seq::<u8>::empty() =~= Seq::<u8>::empty());
}

/// From a filter that stands between two units, the client gets what the laws
/// on whole streams say.
proof fn lemma_continue(stray: bool, u: Seq<u8>, later: Seq<u8>)
    ensures
        emitted(before(stray) + u + later) == before(stray) + output(between(stray), u) + output(
            filter_behind(between(stray), u),
            later,
        ),
        filter_behind(between(stray), u) == fresh_filter() ==> emitted(before(stray) + u + later)
            == before(stray) + output(between(stray), u) + emitted(later),
        filter_behind(between(stray), u) == between(stray) && output(between(stray), u) == Seq::<
            u8,
        >::empty() ==> emitted(before(stray) + u + later) == emitted(before(stray) + later),
{
    lemma_before(stray, u);
    lemma_before(stray, later);
    lemma_split_stream(before(stray) + u, later);
    law_new_filter(later);
    assert(before(stray) + Seq::<u8>::empty() =~= before(stray));
}

/// A plain byte passes at once, whatever it is, and the filter is then as new.
/// It may stand behind two stray `ESC`; there a `[` is no plain byte.
pub proof fn law_plain_byte_passes(stray: bool, byte: u8, later: Seq<u8>)
    requires
        byte != 0x1b,
        !(stray && byte == 0x5b),
    ensures
        ({
            let got: Seq<u8> = if stray {
                seq![0x1b, 0x1b]
            } else {
                seq![]
            };
            emitted(got + seq![byte] + later) == got + seq![byte] + emitted(later)
        }),
{
    let u = seq![byte];
    lemma_whole_unit(stray, u);
    assert(Seq::<u8>::empty() + u =~= u);
    lemma_continue(stray, u, later);
}

/// `ESC` and a byte other than `[` pass together, at once, and the filter is then
/// as new, unless the byte is another `ESC`.
pub proof fn law_escape_pair_passes(stray: bool, byte: u8, later: Seq<u8>)
    requires
        byte != 0x5b,
    ensures
        ({
            let got: Seq<u8> = if stray {
                seq![0x1b, 0x1b]
            } else {
                seq![]
            };
            &&& emitted(got + seq![0x1b, byte]) == got + seq![0x1b, byte]
            &&& byte != 0x1b ==> emitted(got + seq![0x1b, byte] + later) == got + seq![0x1b, byte]
                + emitted(later)
            &&& byte == 0x1b ==> emitted(got + seq![0x1b, byte] + later) == got + emitted(
                seq![0x1b, byte] + later,
            )
        }),
{
    let none = Seq::<u8>::empty();
    let u = seq![0x1b, byte];
    lemma_whole_unit(stray, u);
    assert(none + u =~= u);
    lemma_continue(stray, u, later);
    lemma_continue(stray, u, none);
    assert(before(stray) + u + none =~= before(stray) + u);
    lemma_before(stray, u);
    if byte == 0x1b {
        assert(u =~= before(true));
        lemma_before(true, later);
        assert(before(stray) + u + output(between(true), later) =~= before(stray) + (u + output(
            between(true),
            later,
        )));
    }
}

/// What becomes of a control sequence. It opens with `ESC [`, or with `[` alone
/// behind two stray `ESC`. Its bytes are `p` and `q`: `p` may hold further
/// `ESC [`, but no private byte; `q` holds no byte in `0x40..=0x7e`. `last` is
/// in `0x40..=0x7e`. If a byte of `q` is in `0x20..=0x2f` or `0x3c..=0x3f`, the
/// client gets nothing of it, as if it were not there. Otherwise the client
/// gets all of it at once, and the filter is then as new.
pub proof fn law_control_sequence(
    stray: bool,
    late: bool,
    p: Seq<u8>,
    q: Seq<u8>,
    last: u8,
    later: Seq<u8>,
)
    requires
        late ==> stray,
        forall|k: int|
            0 <= k < p.len() ==> !(0x20 <= #[trigger] p[k] <= 0x2f || 0x3c <= p[k] <= 0x3f),
        forall|k: int|
            0 <= k < p.len() && 0x40 <= #[trigger] p[k] <= 0x7e ==> p[k] == 0x5b && k > 0 && p[k
                - 1] == 0x1b,
        forall|k: int| 0 <= k < q.len() ==> !(0x40 <= #[trigger] q[k] <= 0x7e),
        0x40 <= last <= 0x7e,
        last == 0x5b && q.len() > 0 ==> q.last() != 0x1b,
        last == 0x5b && q.len() == 0 && p.len() > 0 ==> p.last() != 0x1b,
    ensures
        ({
            let got: Seq<u8> = if stray {
                seq![0x1b, 0x1b]
            } else {
                seq![]
            };
            let open: Seq<u8> = if late {
                seq![0x5b]
            } else {
                seq![0x1b, 0x5b]
            };
            let all = open + p + q + seq![last];
            if exists|k: int|
                0 <= k < q.len() && (0x20 <= #[trigger] q[k] <= 0x2f || 0x3c <= q[k] <= 0x3f) {
                emitted(got + all + later) == emitted(got + later)
            } else {
                emitted(got + all + later) == got + all + emitted(later)
            }
        }),
{
    let all = opener(late) + p + q;
    assert(!has_marker(p));
    assert(all.last() == if q.len() > 0 {
        q.last()
    } else if p.len() > 0 {
        p.last()
    } else {
        CSI_OPEN
    });
    lemma_sequence_ends(stray, late, p, q, last);
    lemma_continue(stray, all + seq![last], later);
    if exists|k: int| 0 <= k < q.len() && (0x20 <= #[trigger] q[k] <= 0x2f || 0x3c <= q[k] <= 0x3f) {
        let k = choose|k: int|
            0 <= k < q.len() && (0x20 <= #[trigger] q[k] <= 0x2f || 0x3c <= q[k] <= 0x3f);
        assert(is_private_marker(q[k]));
    }
}

/// Until the last byte of a control sequence comes, the client gets nothing of it.
pub proof fn law_unfinished_sequence_waits(stray: bool, late: bool, p: Seq<u8>, q: Seq<u8>)
    requires
        late ==> stray,
        forall|k: int|
            0 <= k < p.len() ==> !(0x20 <= #[trigger] p[k] <= 0x2f || 0x3c <= p[k] <= 0x3f),
        forall|k: int|
            0 <= k < p.len() && 0x40 <= #[trigger] p[k] <= 0x7e ==> p[k] == 0x5b && k > 0 && p[k
                - 1] == 0x1b,
        forall|k: int| 0 <= k < q.len() ==> !(0x40 <= #[trigger] q[k] <= 0x7e),
    ensures
        ({
            let got: Seq<u8> = if stray {
                seq![0x1b, 0x1b]
            } else {
                seq![]
            };
            let open: Seq<u8> = if late {
                seq![0x5b]
            } else {
                seq![0x1b, 0x5b]
            };
            &&& emitted(got + (open + p + q)) == got
            &&& emitted(got + seq![0x1b]) == got
        }),
{
    assert(!has_marker(p));
    lemma_sequence_held(stray, late, p, q);
    lemma_before(stray, opener(late) + p + q);
    lemma_step(stray, Seq::empty(), ESC);
    assert(Seq::<u8>::empty().push(ESC) =~= seq![ESC]);
    assert(Seq::<u8>::empty() + seq![ESC] =~= seq![ESC]);
    lemma_before(stray, seq![ESC]);
    assert(before(stray) + Seq::<u8>::empty() =~= before(stray));
}

/// A private control sequence that `ESC [` cuts off is dropped up to there: what
/// follows is read as if it were not there.
pub proof fn law_private_sequence_cut_off(
    stray: bool,
    late: bool,
    p: Seq<u8>,
    q: Seq<u8>,
    later: Seq<u8>,
)
    requires
        late ==> stray,
        forall|k: int|
            0 <= k < p.len() ==> !(0x20 <= #[trigger] p[k] <= 0x2f || 0x3c <= p[k] <= 0x3f),
        forall|k: int|
            0 <= k < p.len() && 0x40 <= #[trigger] p[k] <= 0x7e ==> p[k] == 0x5b && k > 0 && p[k
                - 1] == 0x1b,
        forall|k: int| 0 <= k < q.len() ==> !(0x40 <= #[trigger] q[k] <= 0x7e),
        exists|k: int|
            0 <= k < q.len() && (0x20 <= #[trigger] q[k] <= 0x2f || 0x3c <= q[k] <= 0x3f),
    ensures
        ({
            let got: Seq<u8> = if stray {
                seq![0x1b, 0x1b]
            } else {
                seq![]
            };
            let open: Seq<u8> = if late {
                seq![0x5b]
            } else {
                seq![0x1b, 0x5b]
            };
            emitted(got + (open + p + q + seq![0x1b, 0x5b]) + later) == emitted(
                got + (seq![0x1b, 0x5b] + later),
            )
        }),
{
    let none = Seq::<u8>::empty();
    let h = opener(late) + p + q;
    let again = seq![ESC, CSI_OPEN];
    assert(!has_marker(p));
    let k = choose|k: int|
        0 <= k < q.len() && (0x20 <= #[trigger] q[k] <= 0x2f || 0x3c <= q[k] <= 0x3f);
    assert(is_private_marker(q[k]));
    lemma_sequence_held(stray, late, p, q);
    let held = FilterModel { held: h, escape_sent: stray };
    assert(h != seq![ESC]) by {
        assert(has_marker(h));
        if h == seq![ESC] {
            assert(h.len() == 1 && q.len() == 1);
        }
    }
    lemma_open_csi(held);
    law_split(between(stray), h, again);
    assert(none + again =~= again);
    lemma_continue(stray, h + again, later);
    lemma_opened(stray, false);
    lemma_continue(stray, again, later);
    assert(none + none =~= none);
    assert(before(stray) + again + later =~= before(stray) + (again + later));
}

/// A stream of whole units reaches the client without its private control
/// sequences and otherwise unchanged, at once, and leaves the filter as new. A
/// unit is a plain byte, an escape pair, or a control sequence: `ESC [`, any
/// bytes outside `0x40..=0x7e`, and one byte of that range that is not a `[`
/// behind an `ESC`. It is private if one of the bytes between is in
/// `0x20..=0x2f` or `0x3c..=0x3f`.
pub proof fn law_stream_without_its_private_sequences(units: Seq<Seq<u8>>, later: Seq<u8>)
    requires
        forall|i: int|
            0 <= i < units.len() ==> {
                let u = #[trigger] units[i];
                ||| u.len() == 1 && u[0] != 0x1b
                ||| u.len() == 2 && u[0] == 0x1b && u[1] != 0x5b && u[1] != 0x1b
                ||| {
                    &&& u.len() >= 3
                    &&& u[0] == 0x1b
                    &&& u[1] == 0x5b
                    &&& 0x40 <= u[u.len() - 1] <= 0x7e
                    &&& !(u[u.len() - 1] == 0x5b && u[u.len() - 2] == 0x1b)
                    &&& forall|k: int| 2 <= k < u.len() - 1 ==> !(0x40 <= #[trigger] u[k] <= 0x7e)
                }
            },
    ensures
        emitted(units.flatten() + later) == units.filter(
            |u: Seq<u8>|
                !(u.len() >= 3 && exists|k: int|
                    2 <= k < u.len() - 1 && (0x20 <= #[trigger] u[k] <= 0x2f || 0x3c <= u[k]
                        <= 0x3f)),
        ).flatten() + emitted(later),
    decreases units.len(),
{
    let keep = |u: Seq<u8>|
        !(u.len() >= 3 && exists|k: int|
            2 <= k < u.len() - 1 && (0x20 <= #[trigger] u[k] <= 0x2f || 0x3c <= u[k] <= 0x3f));
    let none = Seq::<u8>::empty();
    if units.len() == 0 {
        reveal(Seq::filter);
        assert(units.flatten() + later =~= later);
        assert(units.filter(keep).flatten() + emitted(later) =~= emitted(later));
    } else {
        let u = units[0];
        let rest = units.drop_first();
        assert forall|i: int| 0 <= i < rest.len() implies #[trigger] rest[i] == units[i + 1] by {}
        law_stream_without_its_private_sequences(rest, later);
        let tail = rest.flatten() + later;
        assert(units.flatten() + later =~= none + u + tail);
        assert(units =~= seq![u] + rest);
        Seq::filter_distributes_over_add(seq![u], rest, keep);
        assert(seq![u].filter(keep) =~= if keep(u) {
            seq![u]
        } else {
            seq![]
        }) by {
            reveal_with_fuel(Seq::filter, 2);
            assert(seq![u].drop_last() =~= Seq::<Seq<u8>>::empty());
        }
        let kept = rest.filter(keep);
        if keep(u) {
            assert((seq![u] + kept).drop_first() =~= kept);
        } else {
            assert(seq![] + kept =~= kept);
        }
        if u.len() == 1 {
            assert(u =~= seq![u[0]]);
            law_plain_byte_passes(false, u[0], tail);
        } else if u.len() == 2 {
            assert(u =~= seq![0x1b, u[1]]);
            law_escape_pair_passes(false, u[1], tail);
        } else {
            let n = u.len() - 1;
            let q = u.subrange(2, n);
            assert(u =~= seq![0x1b, 0x5b] + none + q + seq![u[n]]);
            assert(q.len() > 0 ==> q.last() == u[n - 1]);
            assert forall|k: int| 0 <= k < q.len() implies !(0x40 <= #[trigger] q[k] <= 0x7e) by {
                assert(q[k] == u[k + 2]);
            }
            law_control_sequence(false, false, none, q, u[n], tail);
            if keep(u) {
                assert forall|k: int| 0 <= k < q.len() implies !(0x20 <= #[trigger] q[k] <= 0x2f
                    || 0x3c <= q[k] <= 0x3f) by {
                    assert(q[k] == u[k + 2]);
                }
            } else {
                let k = choose|k: int|
                    2 <= k < u.len() - 1 && (0x20 <= #[trigger] u[k] <= 0x2f || 0x3c <= u[k]
                        <= 0x3f);
                assert(q[k - 2] == u[k]);
            }
            assert(none + tail =~= tail);
        }
        assert(none + u + emitted(tail) =~= u + emitted(tail));
        assert(emitted(none + u + tail) =~= units.filter(keep).flatten() + emitted(later));
    }
}

/// A control sequence whose parameters are digits, `:` and `;` passes, whatever
/// they are and however many.
pub proof fn law_parameters_pass(params: Seq<u8>, last: u8, later: Seq<u8>)
    requires
        forall|k: int| 0 <= k < params.len() ==> 0x30 <= #[trigger] params[k] <= 0x3b,
        0x40 <= last <= 0x7e,
    ensures
        emitted(seq![0x1b, 0x5b] + params + seq![last] + later) == seq![0x1b, 0x5b] + params
            + seq![last] + emitted(later),
{
    let none = Seq::<u8>::empty();
    let all = seq![0x1b, 0x5b] + params + seq![last];
    assert forall|k: int| 0 <= k < params.len() implies !(0x20 <= #[trigger] params[k] <= 0x2f || 0x3c
        <= params[k] <= 0x3f) && !(0x40 <= params[k] <= 0x7e) by {}
    law_control_sequence(false, false, none, params, last, later);
    assert(none + (seq![0x1b, 0x5b] + none + params + seq![last]) + later =~= all + later);
    assert(none + (seq![0x1b, 0x5b] + none + params + seq![last]) + emitted(later) =~= all + emitted(
        later,
    ));
}

/// A new filter gives the client of its first read what the laws on streams
/// say.
pub proof fn law_first_read(filter: &mut ConPtyOutboundFilter, input: &[u8], out: Vec<u8>)
    requires
        call_ensures(ConPtyOutboundFilter::new, (), *filter),
        call_ensures(ConPtyOutboundFilter::process, (filter, input), out),
    ensures
        out@ == emitted(input@),
{
    law_new_filter(input@);
}

/// Two reads give the client what one read of all their bytes gives, whatever
/// came before.
pub proof fn law_two_reads(
    first: &mut ConPtyOutboundFilter,
    second: &mut ConPtyOutboundFilter,
    joined: &mut ConPtyOutboundFilter,
    a: &[u8],
    b: &[u8],
    all: &[u8],
    out_a: Vec<u8>,
    out_b: Vec<u8>,
    out: Vec<u8>,
)
    requires
        call_ensures(ConPtyOutboundFilter::process, (first, a), out_a),
        call_ensures(ConPtyOutboundFilter::process, (second, b), out_b),
        call_ensures(ConPtyOutboundFilter::process, (joined, all), out),
        *second == *final(first),
        *joined == *first,
        all@ == a@ + b@,
    ensures
        out@ == out_a@ + out_b@,
        final(joined)@ == final(second)@,
{
    law_split(first@, a@, b@);
}

/// A byte appends what a read of that one byte gives, and nothing that was in
/// `out` before is touched.
pub proof fn law_byte_is_a_read_of_one(
    by_byte: &mut ConPtyOutboundFilter,
    by_read: &mut ConPtyOutboundFilter,
    byte: u8,
    out: &mut Vec<u8>,
    read: &[u8],
    chunk: Vec<u8>,
)
    requires
        call_ensures(ConPtyOutboundFilter::process_byte, (by_byte, byte, out), ()),
        call_ensures(ConPtyOutboundFilter::process, (by_read, read), chunk),
        *by_read == *by_byte,
        read@ == seq![byte],
    ensures
        final(out)@ == old(out)@ + chunk@,
        final(by_byte)@ == final(by_read)@,
{
}

/// The bytes that make a control sequence private, besides the intermediates in
/// `0x20..=0x2f`, are `?`, `>`, `!`, `=` and `<`.
pub proof fn law_introducers(byte: u8, intro: bool)
    requires
        call_ensures(is_private_csi_intro, (byte,), intro),
    ensures
        intro <==> byte == 0x21 || 0x3c <= byte <= 0x3f,
{
}

/// The client's last byte, if it is an escape.
spec fn dangling(sent: bool) -> Seq<u8> {
    if sent {
        seq![ESC]
    } else {
        Seq::empty()
    }
}

/// No private control sequence begins in the front `pre + u` of what the client
/// gets, where `u` is a unit that passes.
proof fn lemma_none_begins_in_unit(sent: bool, u: Seq<u8>, all: Seq<u8>, i: int, j: int)
    requires
        u.len() > 0,
        first_unit(sent, u) == u.len(),
        !is_private(sent, u),
        all.len() >= dangling(sent).len() + u.len(),
        all.take((dangling(sent).len() + u.len()) as int) == dangling(sent) + u,
        0 <= i <= j <= all.len(),
        i < dangling(sent).len() + u.len(),
        u.last() == ESC ==> i < dangling(sent).len() + u.len() - 1,
    ensures
        !is_private_csi(all.subrange(i, j)),
{
    let d = dangling(sent).len() as int;
    let front = dangling(sent) + u;
    let csi = all.subrange(i, j);
    assert forall|m: int| 0 <= m < front.len() implies #[trigger] all[m] == front[m] by {
        assert(all.take(front.len() as int)[m] == front[m]);
    }
    if is_private_csi(csi) {
        assert(csi[0] == all[i] && csi[1] == all[i + 1]);
        assert(all[i] == front[i]);
        if opens_csi(sent, u) {
            let k: int = if u[0] == ESC {
                2
            } else {
                1
            };
            lemma_csi_end(u, k);
            assert(u.take(u.len() as int) =~= u);
            // The unit ends with a final byte that does not open a sequence.
            assert(i + 1 < front.len());
            assert(all[i + 1] == front[i + 1]);
            let p = front.len() - 1;
            assert(front[p] == u.last());
            assert(i + 1 < p) by {
                if i + 1 == p {
                    if u.len() > 1 {
                        assert(front[i] == u[u.len() - 2]);
                    }
                }
            }
            assert(j - 1 <= p) by {
                if p < j - 1 {
                    assert(csi[p - i] == all[p]);
                }
            }
            let m = choose|m: int| 0 <= m < csi.len() && is_private_marker(#[trigger] csi[m]);
            assert(csi[m] == all[i + m]);
            assert(m >= 2);
            assert(front[i + m] == u[i + m - d]);
            assert(is_private_marker(u[i + m - d]));
        } else if i + 1 < front.len() {
            assert(all[i + 1] == front[i + 1]);
        }
    }
}

proof fn lemma_no_private_csi(sent: bool, s: Seq<u8>, i: int, j: int)
    requires
        0 <= i <= j <= dangling(sent).len() + emitted_from(sent, s).len(),
    ensures
        !is_private_csi((dangling(sent) + emitted_from(sent, s)).subrange(i, j)),
    decreases s.len(),
{
    let n = first_unit(sent, s);
    lemma_first_unit(sent, s, Seq::empty());
    let all = dangling(sent) + emitted_from(sent, s);
    let csi = all.subrange(i, j);
    if n > 0 {
        let u = s.take(n);
        let after = sent_behind(sent, u);
        let rest = emitted_from(after, s.skip(n));
        if is_private(sent, u) {
            assert(Seq::<u8>::empty() + rest =~= rest);
            lemma_no_private_csi(sent, s.skip(n), i, j);
        } else {
            let d = dangling(sent).len() as int;
            let cut = d + n - dangling(after).len();
            if i >= cut {
                lemma_no_private_csi(after, s.skip(n), i - cut, j - cut);
                assert(csi =~= (dangling(after) + rest).subrange(i - cut, j - cut));
            } else {
                assert(all.take(d + n) =~= dangling(sent) + u);
                lemma_none_begins_in_unit(sent, u, all, i, j);
            }
        }
    } else {
        assert(csi.len() <= 1);
    }
}

/// No private control sequence reaches the client: none stands anywhere in
/// what the client gets, however the stream was made.
pub proof fn law_no_private_csi_reaches_the_client(s: Seq<u8>, i: int, j: int)
    requires
        0 <= i <= j <= emitted(s).len(),
    ensures
        !is_private_csi(emitted(s).subrange(i, j)),
        ({
            let t = emitted(s).subrange(i, j);
            !{
                &&& t.len() >= 3
                &&& t[0] == 0x1b
                &&& t[1] == 0x5b
                &&& 0x40 <= t[t.len() - 1] <= 0x7e
                &&& forall|k: int|
                    2 <= k < t.len() - 1 ==> !(0x40 <= #[trigger] t[k] <= 0x7e) && t[k] != 0x1b
                &&& exists|k: int|
                    2 <= k < t.len() - 1 && (0x20 <= #[trigger] t[k] <= 0x2f || 0x3c <= t[k] <= 0x3f)
            }
        }),
{
    lemma_no_private_csi(false, s, i, j);
    assert(Seq::<u8>::empty() + emitted(s) =~= emitted(s));
    let t = emitted(s).subrange(i, j);
    if exists|k: int| 2 <= k < t.len() - 1 && (0x20 <= #[trigger] t[k] <= 0x2f || 0x3c <= t[k] <= 0x3f) {
        let k = choose|k: int|
            2 <= k < t.len() - 1 && (0x20 <= #[trigger] t[k] <= 0x2f || 0x3c <= t[k] <= 0x3f);
        assert(is_private_marker(t[k]));
    }
}

proof fn lemma_output_is_clean(sent: bool, s: Seq<u8>)
    ensures
        emitted_from(sent, emitted_from(sent, s)) == emitted_from(sent, s),
        model_from(sent, emitted_from(sent, s)).held == Seq::<u8>::empty(),
    decreases s.len(),
{
    let none = Seq::<u8>::empty();
    lemma_no_unit(sent, none);
    lemma_first_unit(sent, s, none);
    let n = first_unit(sent, s);
    if n > 0 {
        let u = s.take(n);
        let after = sent_behind(sent, u);
        let rest = emitted_from(after, s.skip(n));
        lemma_output_is_clean(after, s.skip(n));
        if is_private(sent, u) {
            assert(none + rest =~= rest);
        } else {
            lemma_whole_unit(sent, u);
            lemma_split_from(sent, u, rest);
            assert(none + rest =~= rest);
        }
    }
}

/// What reaches the client is made of whole units that pass: filtering it
/// again drops nothing and holds nothing back.
pub proof fn law_output_is_clean(s: Seq<u8>)
    ensures
        emitted(emitted(s)) == emitted(s),
        filter_after(emitted(s)).held == Seq::<u8>::empty(),
{
    lemma_output_is_clean(false, s);
}

/// What is held back is passed whole, together with the byte that completes
/// it, or not at all: a byte never lets a part of it through.
pub proof fn law_held_passes_whole_or_not_at_all(s: Seq<u8>, byte: u8)
    ensures
        ({
            let filter = filter_after(s);
            ||| output(filter, seq![byte]) == Seq::<u8>::empty()
            ||| output(filter, seq![byte]) == filter.held.push(byte)
        }),
{
    let filter = filter_after(s);
    lemma_held_is_unfinished(false, s);
    lemma_step(filter.escape_sent, filter.held, byte);
    assert(filter.held + seq![byte] =~= filter.held.push(byte));
}

/// Once a final byte ends a control sequence, kept or dropped, the filter does
/// to every later stream what a new one does. Two cases are left out: a `[`
/// directly behind an `ESC` opens a sequence and ends none; and where a sequence
/// is dropped while the client's last byte is an `ESC`, the filter still has to
/// remember that `ESC`.
pub proof fn law_as_new_behind_a_final_byte(s: Seq<u8>, byte: u8, later: Seq<u8>)
    requires
        opens_csi(filter_after(s).escape_sent, filter_after(s).held),
        is_final(byte),
        !(byte == CSI_OPEN && filter_after(s).held.last() == ESC),
        !(filter_after(s).escape_sent && has_marker(filter_after(s).held)),
    ensures
        filter_after(s.push(byte)) == fresh_filter(),
        output(filter_after(s.push(byte)), later) == emitted(later),
{
    let filter = filter_after(s);
    lemma_held_is_unfinished(false, s);
    lemma_step(filter.escape_sent, filter.held, byte);
    lemma_split_stream(s, seq![byte]);
    assert(s + seq![byte] =~= s.push(byte));
    assert(filter.held + seq![byte] =~= filter.held.push(byte));
    law_new_filter(later);
}

/// Places in the stream `s` of the bytes that the client gets.
pub open spec fn kept_places(sent: bool, s: Seq<u8>) -> Seq<int>
    decreases s.len(),
{
    let n = first_unit(sent, s);
    if 0 < n <= s.len() {
        let rest = kept_places(sent_behind(sent, s.take(n)), s.skip(n));
        Seq::new(passed(sent, s.take(n)).len(), |i: int| i) + Seq::new(
            rest.len(),
            |i: int| rest[i] + n,
        )
    } else {
        Seq::empty()
    }
}

/// `places` are places of `s`, in order, and `out` holds the bytes there.
pub open spec fn is_selection(s: Seq<u8>, places: Seq<int>, out: Seq<u8>) -> bool {
    &&& places.len() == out.len()
    &&& forall|i: int|
        0 <= i < out.len() ==> 0 <= #[trigger] places[i] < s.len() && out[i] == s[places[i]]
    &&& forall|i: int, j: int|
        0 <= i < j < places.len() ==> #[trigger] places[i] < #[trigger] places[j]
}

#[verifier::spinoff_prover]
proof fn lemma_selection(sent: bool, s: Seq<u8>)
    ensures
        is_selection(s, kept_places(sent, s), emitted_from(sent, s)),
    decreases s.len(),
{
    lemma_first_unit(sent, s, Seq::empty());
    let n = first_unit(sent, s);
    if n > 0 {
        let tail = s.skip(n);
        let after = sent_behind(sent, s.take(n));
        lemma_selection(after, tail);
        let p = passed(sent, s.take(n)).len() as int;
        let places = kept_places(sent, s);
        let rest = kept_places(after, tail);
        let out = emitted_from(sent, s);
        assert forall|i: int| p <= i < places.len() implies #[trigger] places[i] == rest[i - p] + n by {}
        assert forall|i: int| 0 <= i < out.len() implies 0 <= #[trigger] places[i] < s.len() && out[i]
            == s[places[i]] by {
            if i >= p {
                assert(out[i] == emitted_from(after, tail)[i - p]);
                assert(0 <= rest[i - p] < tail.len());
            }
        }
        assert forall|i: int, j: int| 0 <= i < j < places.len() implies #[trigger] places[i]
            < #[trigger] places[j] by {
            if i >= p {
                assert(rest[i - p] < rest[j - p]);
            } else if j >= p {
                assert(0 <= rest[j - p]);
            }
        }
    }
}

/// Bytes are only dropped, never invented, changed or reordered: the client
/// gets the bytes at certain places of the stream, in the stream's order.
pub proof fn law_output_is_a_subsequence(s: Seq<u8>)
    ensures
        is_selection(s, kept_places(false, s), emitted(s)),
{
    lemma_selection(false, s);
}

proof fn lemma_never_longer(sent: bool, s: Seq<u8>)
    ensures
        emitted_from(sent, s).len() + model_from(sent, s).held.len() <= s.len(),
    decreases s.len(),
{
    lemma_first_unit(sent, s, Seq::empty());
    let n = first_unit(sent, s);
    if n > 0 {
        lemma_never_longer(sent_behind(sent, s.take(n)), s.skip(n));
    }
}

/// The filter adds no byte: what it emits and what it holds back together are
/// no longer than what it was given.
pub proof fn law_never_longer(s: Seq<u8>)
    ensures
        emitted(s).len() + filter_after(s).held.len() <= s.len(),
{
    lemma_never_longer(false, s);
}

} // verus!
