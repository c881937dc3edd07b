//! Which payload types and names a session description gives its m-lines, and
//! whether a session can stand them.
//!
//! A session has a number of formats, each with a payload type for media and
//! perhaps others for retransmissions and redundancy. The first m-line that offers
//! a format settles its numbers. Where the remote side only sends, the numbers are
//! proposals, and the session moves one that is taken. Anywhere else they are the
//! remote side's to choose, and no number can stand for two formats.
use vstd::prelude::*;
use vstd::string::*;

use crate::names::{all_distinct, texts};

verus! {

/// A format of a session, with the numbers it has.
#[derive(Debug, Clone, Copy)]
pub struct Format {
    pub number: u8,
    pub resend: Option<u8>,
    pub red: Option<u8>,
    /// Whether the numbers are settled.
    pub settled: bool,
}

/// What an m-line has for a format of the session.
#[derive(Debug, Clone, Copy)]
pub struct Payload {
    /// The format, by its present number.
    pub format: u8,
    /// The number that the m-line gives it, if it offers it at all.
    pub number: Option<u8>,
    pub resend: Option<u8>,
}

/// An m-line of a description.
#[derive(Debug)]
pub struct Line {
    pub mid: String,
    /// Whether it is for audio or video.
    pub media: bool,
    /// Whether the session has an m-line of this name.
    pub known: bool,
    /// Whether the remote side sends on it.
    pub sends: bool,
    /// Whether the remote side receives on it.
    pub receives: bool,
    /// What it has for each format of the session.
    pub payloads: Vec<Payload>,
}

#[verifier::ext_equal]
pub struct LineView {
    pub mid: Seq<char>,
    pub media: bool,
    pub known: bool,
    pub sends: bool,
    pub receives: bool,
    pub payloads: Seq<Payload>,
}

impl View for Line {
    type V = LineView;

    open spec fn view(&self) -> LineView {
        LineView {
            mid: self.mid@,
            media: self.media,
            known: self.known,
            sends: self.sends,
            receives: self.receives,
            payloads: self.payloads@,
        }
    }
}

pub open spec fn lines_of(lines: Seq<Line>) -> Seq<LineView> {
    lines.map_values(|line: Line| line@)
}

/// A number that a format has, or may have.
#[derive(Debug, Clone, Copy)]
pub struct Claim {
    pub format: u8,
    pub number: u8,
}

/// Where the numbers stand.
#[verifier::ext_equal]
pub struct Ledger {
    /// The formats that are settled for certain.
    pub settled: Seq<u8>,
    /// The numbers that formats have if they are settled.
    pub taken: Seq<Claim>,
    /// A number may have been moved, to nobody knows where.
    pub moved: bool,
}

impl Payload {
    /// A number stands for this, or for its retransmissions.
    pub open spec fn bears(self, number: u8) -> bool {
        self.number == Some(number) || self.resend == Some(number)
    }

    /// Two have a number in common.
    pub open spec fn clashes(self, other: Payload) -> bool {
        ||| other.number is Some && self.bears(other.number->0)
        ||| other.resend is Some && self.bears(other.resend->0)
    }
}

impl LineView {
    /// The numbers are the remote side's to choose.
    pub open spec fn dictates(self) -> bool {
        self.receives || !self.sends
    }

    /// The session may take this for a new m-line. An offer can give away the place
    /// of an m-line the session has, and then bring that one back as new.
    pub open spec fn may_be_new(self, offered: bool) -> bool {
        self.media && (!self.known || offered)
    }
}

/// A payload would settle a format of the session.
pub open spec fn is_open(settled: Seq<u8>, payload: Payload) -> bool {
    payload.number is Some && !settled.contains(payload.format)
}

/// A payload does not get in the way of the numbers that are taken, nor of the
/// others of its m-line.
pub open spec fn is_free(ledger: Ledger, payloads: Seq<Payload>, i: int) -> bool {
    let payload = payloads[i];
    &&& payload.resend != payload.number
    &&& forall|c: int|
        0 <= c < ledger.taken.len() && (#[trigger] ledger.taken[c]).format != payload.format
            ==> !payload.bears(ledger.taken[c].number)
    &&& forall|j: int|
        0 <= j < payloads.len() && is_open(ledger.settled, #[trigger] payloads[j])
            && payloads[j].format != payload.format ==> !payload.clashes(payloads[j])
}

/// No payload that would settle a format gets in the way.
pub open spec fn all_free(ledger: Ledger, payloads: Seq<Payload>) -> bool {
    forall|i: int|
        0 <= i < payloads.len() && is_open(ledger.settled, #[trigger] payloads[i]) ==> is_free(
            ledger,
            payloads,
            i,
        )
}

/// Some payload would settle a format.
pub open spec fn some_open(ledger: Ledger, payloads: Seq<Payload>) -> bool {
    exists|i: int| 0 <= i < payloads.len() && is_open(ledger.settled, #[trigger] payloads[i])
}

/// The numbers of an m-line can be settled on.
pub open spec fn is_bearable(ledger: Ledger, line: LineView, offered: bool) -> bool {
    line.may_be_new(offered) && line.dictates() && some_open(ledger, line.payloads) ==> !ledger.moved
        && all_free(ledger, line.payloads)
}

/// The formats that payloads offer.
pub open spec fn formats_among(payloads: Seq<Payload>) -> Seq<u8>
    decreases payloads.len(),
{
    if payloads.len() == 0 {
        Seq::empty()
    } else {
        let rest = formats_among(payloads.drop_last());
        if payloads.last().number is Some {
            rest.push(payloads.last().format)
        } else {
            rest
        }
    }
}

/// The numbers a format would have.
pub open spec fn claims_to(format: u8, number: u8, resend: Option<u8>) -> Seq<Claim> {
    match resend {
        Some(resend) => seq![Claim { format, number }, Claim { format, number: resend }],
        None => seq![Claim { format, number }],
    }
}

/// The numbers that payloads would settle on.
pub open spec fn claims_among(settled: Seq<u8>, payloads: Seq<Payload>) -> Seq<Claim>
    decreases payloads.len(),
{
    if payloads.len() == 0 {
        Seq::empty()
    } else {
        let rest = claims_among(settled, payloads.drop_last());
        let last = payloads.last();
        if is_open(settled, last) {
            rest + claims_to(last.format, last.number->0, last.resend)
        } else {
            rest
        }
    }
}

/// Where the numbers stand after an m-line.
pub open spec fn entered(ledger: Ledger, line: LineView, offered: bool) -> Ledger {
    if !line.may_be_new(offered) {
        ledger
    } else {
        Ledger {
            settled: if line.known {
                ledger.settled
            } else {
                ledger.settled + formats_among(line.payloads)
            },
            taken: ledger.taken + claims_among(ledger.settled, line.payloads),
            moved: ledger.moved || (!line.dictates() && !all_free(ledger, line.payloads)),
        }
    }
}

/// The formats that are settled.
pub open spec fn settled_among(formats: Seq<Format>) -> Seq<u8>
    decreases formats.len(),
{
    if formats.len() == 0 {
        Seq::empty()
    } else {
        let rest = settled_among(formats.drop_last());
        if formats.last().settled {
            rest.push(formats.last().number)
        } else {
            rest
        }
    }
}

/// The numbers that are settled.
pub open spec fn numbers_among(formats: Seq<Format>) -> Seq<Claim>
    decreases formats.len(),
{
    if formats.len() == 0 {
        Seq::empty()
    } else {
        let rest = numbers_among(formats.drop_last());
        let last = formats.last();
        if last.settled {
            let own = rest + claims_to(last.number, last.number, last.resend);
            match last.red {
                Some(red) => own.push(Claim { format: last.number, number: red }),
                None => own,
            }
        } else {
            rest
        }
    }
}

/// Where the numbers stand after some m-lines of a description.
pub open spec fn ledger_after(formats: Seq<Format>, lines: Seq<LineView>, offered: bool) -> Ledger
    decreases lines.len(),
{
    if lines.len() == 0 {
        Ledger { settled: settled_among(formats), taken: numbers_among(formats), moved: false }
    } else {
        entered(ledger_after(formats, lines.drop_last(), offered), lines.last(), offered)
    }
}

/// A session with these formats can settle on the numbers of a description, offered
/// to it or given in answer, m-line by m-line.
pub open spec fn numbers_fit(formats: Seq<Format>, lines: Seq<LineView>, offered: bool) -> bool
    decreases lines.len(),
{
    lines.len() > 0 ==> {
        let earlier = lines.drop_last();
        &&& numbers_fit(formats, earlier, offered)
        &&& is_bearable(ledger_after(formats, earlier, offered), lines.last(), offered)
    }
}

/// The names of the m-lines for audio and video that an answer brings and the
/// session does not have, in order.
pub open spec fn new_mids(lines: Seq<LineView>) -> Seq<Seq<char>>
    decreases lines.len(),
{
    if lines.len() == 0 {
        Seq::empty()
    } else {
        let rest = new_mids(lines.drop_last());
        if lines.last().may_be_new(false) {
            rest.push(lines.last().mid)
        } else {
            rest
        }
    }
}

/// An answer brings as many new m-lines as were offered, and none by another name.
/// The session gets no further with any other answer.
pub open spec fn is_in_kind(awaited: Seq<Seq<char>>, lines: Seq<LineView>) -> bool {
    let mids = new_mids(lines);
    &&& mids.len() == awaited.len()
    &&& forall|i: int| 0 <= i < mids.len() ==> awaited.contains(#[trigger] mids[i])
}

/// What a session cannot stand in an answer.
#[derive(Debug, Clone, Copy, PartialEq, Eq, Structural)]
pub enum Fault {
    /// One of the m-lines that were offered comes twice, and so another not at all.
    Repeats,
    /// A payload type stands for two formats.
    Clashes,
}

/// What a session with these formats cannot stand in an answer to an offer of new
/// m-lines, if there is anything.
pub open spec fn answer_fault(
    formats: Seq<Format>,
    awaited: Seq<Seq<char>>,
    lines: Seq<LineView>,
) -> Option<Fault> {
    if !is_in_kind(awaited, lines) {
        None
    } else if !new_mids(lines).no_duplicates() {
        Some(Fault::Repeats)
    } else if !numbers_fit(formats, lines, false) {
        Some(Fault::Clashes)
    } else {
        None
    }
}

/// A number stands for a format of a session.
pub open spec fn stands_for(number: u8, format: Format) -> bool {
    number == format.number || format.resend == Some(number) || format.red == Some(number)
}

/// No number that a description gives to a format of the session stands for two
/// things: for two formats, be it by two m-lines or by the session's own choice
/// before, or for media and retransmissions.
pub open spec fn is_unambiguous(formats: Seq<Format>, lines: Seq<LineView>) -> bool {
    forall|l: int, i: int|
        0 <= l < lines.len() && 0 <= i < lines[l].payloads.len() && (
        #[trigger] lines[l].payloads[i]).number is Some ==> {
            let payload = lines[l].payloads[i];
            &&& payload.resend != payload.number
            &&& forall|m: int, j: int|
                0 <= m < lines.len() && 0 <= j < lines[m].payloads.len() ==> {
                    let other = #[trigger] lines[m].payloads[j];
                    other.number is Some && other.format != payload.format ==> !payload.clashes(other)
                }
            &&& forall|f: int, number: u8|
                0 <= f < formats.len() && formats[f].settled && formats[f].number != payload.format
                    && #[trigger] stands_for(number, formats[f]) ==> !payload.bears(number)
        }
}

/// A session can settle on the numbers of any description in which none stands for
/// two things.
pub proof fn unambiguous_fits(formats: Seq<Format>, lines: Seq<LineView>, offered: bool)
    requires
        is_unambiguous(formats, lines),
    ensures
        numbers_fit(formats, lines, offered),
{
    fits_so_far(formats, lines, lines.len() as int, offered);
    assert(lines.take(lines.len() as int) =~= lines);
}

/// A claim that no payload of another format is in the way of.
#[verifier::opaque]
spec fn is_clear(claim: Claim, lines: Seq<LineView>) -> bool {
    forall|l: int, i: int|
        0 <= l < lines.len() && 0 <= i < lines[l].payloads.len() ==> {
            let payload = #[trigger] lines[l].payloads[i];
            payload.number is Some && payload.format != claim.format ==> !payload.bears(claim.number)
        }
}

proof fn fits_so_far(formats: Seq<Format>, lines: Seq<LineView>, n: int, offered: bool)
    requires
        is_unambiguous(formats, lines),
        0 <= n <= lines.len(),
    ensures
        numbers_fit(formats, lines.take(n), offered),
        !ledger_after(formats, lines.take(n), offered).moved,
        forall|c: int|
            0 <= c < ledger_after(formats, lines.take(n), offered).taken.len() ==> is_clear(
                #[trigger] ledger_after(formats, lines.take(n), offered).taken[c],
                lines,
            ),
    decreases n,
{
    if n == 0 {
        numbers_are_clear(formats, lines, formats.len() as int);
        assert(formats.take(formats.len() as int) =~= formats);
    } else {
        fits_so_far(formats, lines, n - 1, offered);
        let line = lines[n - 1];
        assert(lines.take(n).drop_last() =~= lines.take(n - 1));
        assert(lines.take(n).last() == line);
        let ledger = ledger_after(formats, lines.take(n - 1), offered);
        assert forall|i: int|
            0 <= i < line.payloads.len() && is_open(
                ledger.settled,
                #[trigger] line.payloads[i],
            ) implies is_free(ledger, line.payloads, i) by {
            reveal(is_clear);
            let payload = lines[n - 1].payloads[i];
            assert forall|j: int|
                0 <= j < line.payloads.len() && is_open(
                    ledger.settled,
                    #[trigger] line.payloads[j],
                ) && line.payloads[j].format != payload.format implies !payload.clashes(
                line.payloads[j],
            ) by {
                let other = lines[n - 1].payloads[j];
            }
        }
        assert(all_free(ledger, line.payloads));
        claims_are_clear(formats, lines, n - 1, ledger.settled, line.payloads.len() as int);
        assert(line.payloads.take(line.payloads.len() as int) =~= line.payloads);
    }
}

proof fn numbers_are_clear(formats: Seq<Format>, lines: Seq<LineView>, n: int)
    requires
        is_unambiguous(formats, lines),
        0 <= n <= formats.len(),
    ensures
        forall|c: int|
            0 <= c < numbers_among(formats.take(n)).len() ==> is_clear(
                #[trigger] numbers_among(formats.take(n))[c],
                lines,
            ),
    decreases n,
{
    if n > 0 {
        numbers_are_clear(formats, lines, n - 1);
        let own = formats[n - 1];
        assert(formats.take(n).drop_last() =~= formats.take(n - 1));
        assert(formats.take(n).last() == own);
        if own.settled {
            assert forall|number: u8| #[trigger] stands_for(number, own) implies is_clear(
                Claim { format: own.number, number },
                lines,
            ) by {
                reveal(is_clear);
                assert(stands_for(number, formats[n - 1]));
            }
            let rest = numbers_among(formats.take(n - 1));
            let all = numbers_among(formats.take(n));
            assert forall|c: int| 0 <= c < all.len() implies is_clear(#[trigger] all[c], lines) by {
                if c < rest.len() {
                    assert(all[c] == rest[c]);
                } else {
                    assert(all[c].format == own.number && stands_for(all[c].number, own));
                }
            }
        } else {
            assert(numbers_among(formats.take(n)) == numbers_among(formats.take(n - 1)));
        }
    }
}

proof fn claims_are_clear(
    formats: Seq<Format>,
    lines: Seq<LineView>,
    l: int,
    settled: Seq<u8>,
    n: int,
)
    requires
        is_unambiguous(formats, lines),
        0 <= l < lines.len(),
        0 <= n <= lines[l].payloads.len(),
    ensures
        forall|c: int|
            0 <= c < claims_among(settled, lines[l].payloads.take(n)).len() ==> is_clear(
                #[trigger] claims_among(settled, lines[l].payloads.take(n))[c],
                lines,
            ),
    decreases n,
{
    if n > 0 {
        claims_are_clear(formats, lines, l, settled, n - 1);
        let payloads = lines[l].payloads;
        let own = lines[l].payloads[n - 1];
        assert(payloads.take(n).drop_last() =~= payloads.take(n - 1));
        assert(payloads.take(n).last() == own);
        if is_open(settled, own) {
            assert forall|number: u8| #[trigger] own.bears(number) implies is_clear(
                Claim { format: own.format, number },
                lines,
            ) by {
                reveal(is_clear);
                assert forall|m: int, j: int|
                    0 <= m < lines.len() && 0 <= j < lines[m].payloads.len() implies {
                    let payload = #[trigger] lines[m].payloads[j];
                    payload.number is Some && payload.format != own.format ==> !payload.bears(number)
                } by {
                    let payload = lines[m].payloads[j];
                    assert(payload.number is Some && payload.format != own.format
                        ==> !payload.clashes(own));
                }
            }
            let rest = claims_among(settled, payloads.take(n - 1));
            let all = claims_among(settled, payloads.take(n));
            assert forall|c: int| 0 <= c < all.len() implies is_clear(#[trigger] all[c], lines) by {
                if c < rest.len() {
                    assert(all[c] == rest[c]);
                } else {
                    assert(all[c].format == own.format && own.bears(all[c].number));
                }
            }
        } else {
            assert(claims_among(settled, payloads.take(n)) == claims_among(settled, payloads.take(n - 1)));
        }
    }
}

/// A format is not settled when an m-line of a description is reached: it was not before
/// and no earlier m-line that is certainly new offers it.
pub open spec fn is_unsettled(
    formats: Seq<Format>,
    lines: Seq<LineView>,
    offered: bool,
    k: int,
    format: u8,
) -> bool {
    &&& forall|f: int|
        0 <= f < formats.len() && (#[trigger] formats[f]).settled ==> formats[f].number != format
    &&& forall|l: int, i: int|
        0 <= l < k && 0 <= i < lines[l].payloads.len() && lines[l].may_be_new(offered)
            && !lines[l].known && (#[trigger] lines[l].payloads[i]).format == format
            ==> lines[l].payloads[i].number is None
}

/// A number that a session settles on stands for nothing else: where a description can be
/// settled on, what an m-line dictates for a format that is not settled gets in the way
/// of no other such format, on that m-line or one before, nor of what was settled, nor of
/// its own retransmissions.
pub proof fn what_fits_stands_for_one_thing(
    formats: Seq<Format>,
    lines: Seq<LineView>,
    offered: bool,
    k: int,
    i: int,
)
    requires
        numbers_fit(formats, lines, offered),
        0 <= k < lines.len(),
        lines[k].may_be_new(offered),
        lines[k].receives || !lines[k].sends,
        0 <= i < lines[k].payloads.len(),
        lines[k].payloads[i].number is Some,
        is_unsettled(formats, lines, offered, k, lines[k].payloads[i].format),
    ensures
        ({
            let payload = lines[k].payloads[i];
            &&& payload.resend != payload.number
            &&& forall|f: int, number: u8|
                0 <= f < formats.len() && formats[f].settled && #[trigger] stands_for(
                    number,
                    formats[f],
                ) ==> payload.number != Some(number) && payload.resend != Some(number)
            &&& forall|l: int, j: int|
                0 <= l <= k && 0 <= j < lines[l].payloads.len() && lines[l].may_be_new(offered) && (
                #[trigger] lines[l].payloads[j]).number is Some && is_unsettled(
                    formats,
                    lines,
                    offered,
                    l,
                    lines[l].payloads[j].format,
                ) && lines[l].payloads[j].format != payload.format ==> {
                    let other = lines[l].payloads[j];
                    &&& payload.number != other.number
                    &&& payload.resend is Some ==> payload.resend != other.number
                    &&& other.resend is Some ==> payload.number != other.resend && payload.resend
                        != other.resend
                }
        }),
{
    let payload = lines[k].payloads[i];
    let ledger = ledger_after(formats, lines.take(k), offered);
    fitting_bears_each_line(formats, lines, offered, k);
    settling_takes_an_offer(formats, lines, offered, k, payload.format);
    assert(is_open(ledger.settled, lines[k].payloads[i]));
    assert(some_open(ledger, lines[k].payloads));
    assert(is_free(ledger, lines[k].payloads, i));
    assert forall|f: int, number: u8|
        0 <= f < formats.len() && formats[f].settled && #[trigger] stands_for(
            number,
            formats[f],
        ) implies payload.number != Some(number) && payload.resend != Some(number) by {
        let claim = Claim { format: formats[f].number, number };
        settled_numbers_are_taken(formats, f, number, formats.len() as int);
        assert(formats.take(formats.len() as int) =~= formats);
        assert(lines.take(0) =~= Seq::empty());
        what_is_taken_stays_taken(formats, lines, offered, 0, k, claim);
        let c = choose|c: int| 0 <= c < ledger.taken.len() && ledger.taken[c] == claim;
        assert(!payload.bears(ledger.taken[c].number));
    }
    assert forall|l: int, j: int|
        0 <= l <= k && 0 <= j < lines[l].payloads.len() && lines[l].may_be_new(offered) && (
        #[trigger] lines[l].payloads[j]).number is Some && is_unsettled(
            formats,
            lines,
            offered,
            l,
            lines[l].payloads[j].format,
        ) && lines[l].payloads[j].format != payload.format implies !payload.clashes(
        lines[l].payloads[j],
    ) by {
        let other = lines[l].payloads[j];
        settling_takes_an_offer(formats, lines, offered, l, other.format);
        if l == k {
            assert(is_open(ledger.settled, lines[k].payloads[j]));
        } else {
            let then = ledger_after(formats, lines.take(l), offered);
            assert(is_open(then.settled, other));
            assert(lines[l].payloads.take(lines[l].payloads.len() as int) =~= lines[l].payloads);
            assert forall|number: u8| #[trigger] other.bears(number) implies !payload.bears(
                number,
            ) by {
                let claim = Claim { format: other.format, number };
                open_numbers_are_claimed(
                    then.settled,
                    lines[l].payloads,
                    j,
                    number,
                    lines[l].payloads.len() as int,
                );
                assert(lines.take(l + 1).drop_last() =~= lines.take(l));
                assert(lines.take(l + 1).last() == lines[l]);
                let next = ledger_after(formats, lines.take(l + 1), offered);
                let claims = claims_among(then.settled, lines[l].payloads);
                let n = choose|n: int| 0 <= n < claims.len() && claims[n] == claim;
                assert(next.taken[then.taken.len() + n] == claim);
                what_is_taken_stays_taken(formats, lines, offered, l + 1, k, claim);
                let c = choose|c: int| 0 <= c < ledger.taken.len() && ledger.taken[c] == claim;
                assert(!payload.bears(ledger.taken[c].number));
            }
            if payload.clashes(other) {
                if other.number is Some && payload.bears(other.number->0) {
                    assert(other.bears(other.number->0));
                } else {
                    assert(other.bears(other.resend->0));
                }
            }
        }
    }
    assert forall|l: int, j: int|
        0 <= l <= k && 0 <= j < lines[l].payloads.len() && lines[l].may_be_new(offered) && (
        #[trigger] lines[l].payloads[j]).number is Some && is_unsettled(
            formats,
            lines,
            offered,
            l,
            lines[l].payloads[j].format,
        ) && lines[l].payloads[j].format != payload.format implies {
        let other = lines[l].payloads[j];
        &&& payload.number != other.number
        &&& payload.resend is Some ==> payload.resend != other.number
        &&& other.resend is Some ==> payload.number != other.resend && payload.resend != other.resend
    } by {
        let other = lines[l].payloads[j];
        assert(!payload.clashes(lines[l].payloads[j]));
        assert(!payload.bears(other.number->0));
    }
}

proof fn fitting_bears_each_line(formats: Seq<Format>, lines: Seq<LineView>, offered: bool, k: int)
    requires
        numbers_fit(formats, lines, offered),
        0 <= k < lines.len(),
    ensures
        is_bearable(ledger_after(formats, lines.take(k), offered), lines[k], offered),
    decreases lines.len(),
{
    if k < lines.len() - 1 {
        fitting_bears_each_line(formats, lines.drop_last(), offered, k);
        assert(lines.drop_last().take(k) =~= lines.take(k));
    } else {
        assert(lines.drop_last() =~= lines.take(k));
    }
}

proof fn settling_takes_an_offer(
    formats: Seq<Format>,
    lines: Seq<LineView>,
    offered: bool,
    k: int,
    format: u8,
)
    requires
        0 <= k <= lines.len(),
        is_unsettled(formats, lines, offered, k, format),
    ensures
        !ledger_after(formats, lines.take(k), offered).settled.contains(format),
    decreases k,
{
    let ledger = ledger_after(formats, lines.take(k), offered);
    if k == 0 {
        settled_formats_are_settled(formats, format);
    } else {
        settling_takes_an_offer(formats, lines, offered, k - 1, format);
        assert(lines.take(k).drop_last() =~= lines.take(k - 1));
        assert(lines.take(k).last() == lines[k - 1]);
        let before = ledger_after(formats, lines.take(k - 1), offered);
        if lines[k - 1].may_be_new(offered) && !lines[k - 1].known {
            let payloads = lines[k - 1].payloads;
            assert forall|i: int| 0 <= i < payloads.len() && (#[trigger] payloads[i]).format
                == format implies payloads[i].number is None by {
                assert(lines[k - 1].payloads[i].format == format);
            }
            formats_offered_are_offered(payloads, format);
            if ledger.settled.contains(format) {
                let n = choose|n: int| 0 <= n < ledger.settled.len() && ledger.settled[n] == format;
                if n < before.settled.len() {
                    assert(before.settled[n] == format);
                } else {
                    assert(formats_among(payloads)[n - before.settled.len()] == format);
                }
            }
        }
    }
}

proof fn settled_formats_are_settled(formats: Seq<Format>, format: u8)
    requires
        forall|f: int|
            0 <= f < formats.len() && (#[trigger] formats[f]).settled ==> formats[f].number
                != format,
    ensures
        !settled_among(formats).contains(format),
    decreases formats.len(),
{
    if formats.len() > 0 {
        let front = formats.drop_last();
        assert forall|f: int| 0 <= f < front.len() && (#[trigger] front[f]).settled implies front[f].number
            != format by {
            assert(front[f] == formats[f]);
        }
        settled_formats_are_settled(front, format);
        assert(formats.last() == formats[formats.len() - 1]);
        let all = settled_among(formats);
        if all.contains(format) {
            let n = choose|n: int| 0 <= n < all.len() && all[n] == format;
            if n < settled_among(front).len() {
                assert(settled_among(front)[n] == format);
            }
        }
    }
}

proof fn formats_offered_are_offered(payloads: Seq<Payload>, format: u8)
    requires
        forall|i: int|
            0 <= i < payloads.len() && (#[trigger] payloads[i]).format == format
                ==> payloads[i].number is None,
    ensures
        !formats_among(payloads).contains(format),
    decreases payloads.len(),
{
    if payloads.len() > 0 {
        let front = payloads.drop_last();
        assert forall|i: int| 0 <= i < front.len() && (#[trigger] front[i]).format
            == format implies front[i].number is None by {
            assert(front[i] == payloads[i]);
        }
        formats_offered_are_offered(front, format);
        assert(payloads.last() == payloads[payloads.len() - 1]);
        let all = formats_among(payloads);
        if all.contains(format) {
            let n = choose|n: int| 0 <= n < all.len() && all[n] == format;
            if n < formats_among(front).len() {
                assert(formats_among(front)[n] == format);
            }
        }
    }
}

proof fn settled_numbers_are_taken(formats: Seq<Format>, f: int, number: u8, n: int)
    requires
        0 <= f < n <= formats.len(),
        formats[f].settled,
        stands_for(number, formats[f]),
    ensures
        numbers_among(formats.take(n)).contains(Claim { format: formats[f].number, number }),
    decreases n,
{
    let claim = Claim { format: formats[f].number, number };
    let rest = numbers_among(formats.take(n - 1));
    let all = numbers_among(formats.take(n));
    assert(formats.take(n).drop_last() =~= formats.take(n - 1));
    assert(formats.take(n).last() == formats[n - 1]);
    if f < n - 1 {
        settled_numbers_are_taken(formats, f, number, n - 1);
        let c = choose|c: int| 0 <= c < rest.len() && rest[c] == claim;
        assert(all[c] == claim);
    } else {
        let own = formats[f];
        if number == own.number {
            assert(all[rest.len() as int] == claim);
        } else if own.resend == Some(number) {
            assert(all[rest.len() as int + 1] == claim);
        } else {
            assert(all[all.len() - 1] == claim);
        }
    }
}

proof fn open_numbers_are_claimed(settled: Seq<u8>, payloads: Seq<Payload>, i: int, number: u8, n: int)
    requires
        0 <= i < n <= payloads.len(),
        is_open(settled, payloads[i]),
        payloads[i].bears(number),
    ensures
        claims_among(settled, payloads.take(n)).contains(
            Claim { format: payloads[i].format, number },
        ),
    decreases n,
{
    let claim = Claim { format: payloads[i].format, number };
    let rest = claims_among(settled, payloads.take(n - 1));
    let all = claims_among(settled, payloads.take(n));
    assert(payloads.take(n).drop_last() =~= payloads.take(n - 1));
    assert(payloads.take(n).last() == payloads[n - 1]);
    if i < n - 1 {
        open_numbers_are_claimed(settled, payloads, i, number, n - 1);
        let c = choose|c: int| 0 <= c < rest.len() && rest[c] == claim;
        assert(all[c] == claim);
    } else {
        if payloads[i].number == Some(number) {
            assert(all[rest.len() as int] == claim);
        } else {
            assert(all[rest.len() as int + 1] == claim);
        }
    }
}

proof fn what_is_taken_stays_taken(
    formats: Seq<Format>,
    lines: Seq<LineView>,
    offered: bool,
    l: int,
    k: int,
    claim: Claim,
)
    requires
        0 <= l <= k <= lines.len(),
        ledger_after(formats, lines.take(l), offered).taken.contains(claim),
    ensures
        ledger_after(formats, lines.take(k), offered).taken.contains(claim),
    decreases k,
{
    if l < k {
        what_is_taken_stays_taken(formats, lines, offered, l, k - 1, claim);
        assert(lines.take(k).drop_last() =~= lines.take(k - 1));
        assert(lines.take(k).last() == lines[k - 1]);
        let before = ledger_after(formats, lines.take(k - 1), offered).taken;
        let c = choose|c: int| 0 <= c < before.len() && before[c] == claim;
        assert(ledger_after(formats, lines.take(k), offered).taken[c] == claim);
    }
}

/// The names of the new m-lines for audio and video of an answer.
pub proof fn new_names_are_those_of_new_lines(lines: Seq<LineView>)
    ensures
        new_mids(lines) == lines.filter(|l: LineView| l.media && !l.known).map_values(
            |l: LineView| l.mid,
        ),
    decreases lines.len(),
{
    reveal(Seq::filter);
    if lines.len() > 0 {
        new_names_are_those_of_new_lines(lines.drop_last());
    }
    assert(new_mids(lines) =~= lines.filter(|l: LineView| l.media && !l.known).map_values(
        |l: LineView| l.mid,
    ));
}

/// What is wrong with an answer, if the session would get to it at all: that the new
/// m-lines are as many as were offered and go by their names. Then it is wrong that one
/// comes twice, and that its numbers cannot be settled on, in that order.
pub proof fn faults_are_found_in_order(
    formats: Seq<Format>,
    awaited: Seq<Seq<char>>,
    lines: Seq<LineView>,
)
    ensures
        ({
            let mids = new_mids(lines);
            let fault = answer_fault(formats, awaited, lines);
            let reached = mids.len() == awaited.len() && forall|i: int|
                0 <= i < mids.len() ==> awaited.contains(#[trigger] mids[i]);
            &&& fault == Some(Fault::Repeats) <==> reached && exists|i: int, j: int|
                0 <= i < j < mids.len() && #[trigger] mids[i] == #[trigger] mids[j]
            &&& fault == Some(Fault::Clashes) <==> reached && mids.no_duplicates() && !numbers_fit(
                formats,
                lines,
                false,
            )
        }),
{
    let mids = new_mids(lines);
    if !mids.no_duplicates() {
        let (i, j) = choose|i: int, j: int|
            0 <= i < mids.len() && 0 <= j < mids.len() && i != j && mids[i] == mids[j];
        if i < j {
            assert(mids[i] == mids[j]);
        } else {
            assert(mids[j] == mids[i]);
        }
    }
}

/// The numbers, as they are worked out.
struct Book {
    settled: Vec<u8>,
    taken: Vec<Claim>,
    moved: bool,
}

impl View for Book {
    type V = Ledger;

    closed spec fn view(&self) -> Ledger {
        Ledger { settled: self.settled@, taken: self.taken@, moved: self.moved }
    }
}

fn same_number(a: Option<u8>, b: u8) -> (same: bool)
    ensures
        same == (a == Some(b)),
{
    match a {
        Some(a) => a == b,
        None => false,
    }
}

impl Payload {
    fn has_number(&self, number: u8) -> (yes: bool)
        ensures
            yes == self.bears(number),
    {
        same_number(self.number, number) || same_number(self.resend, number)
    }

    fn clashes_with(&self, other: &Payload) -> (yes: bool)
        ensures
            yes == self.clashes(*other),
    {
        (match other.number {
            Some(number) => self.has_number(number),
            None => false,
        }) || match other.resend {
            Some(resend) => self.has_number(resend),
            None => false,
        }
    }
}

impl Book {
    fn settles(&self, payload: &Payload) -> (yes: bool)
        ensures
            yes == is_open(self@.settled, *payload),
    {
        if payload.number.is_none() {
            return false;
        }
        let mut i: usize = 0;
        while i < self.settled.len()
            invariant
                i <= self.settled.len(),
                forall|j: int| 0 <= j < i ==> #[trigger] self.settled@[j] != payload.format,
            decreases self.settled.len() - i,
        {
            if self.settled[i] == payload.format {
                assert(self@.settled[i as int] == payload.format);
                return false;
            }
            i = i + 1;
        }
        true
    }

    fn leaves_room_for(&self, payloads: &Vec<Payload>, i: usize) -> (yes: bool)
        requires
            i < payloads.len(),
            payloads@[i as int].number is Some,
        ensures
            yes == is_free(self@, payloads@, i as int),
    {
        let payload = payloads[i];
        if let Some(number) = payload.number {
            if same_number(payload.resend, number) {
                return false;
            }
        }
        let mut c: usize = 0;
        while c < self.taken.len()
            invariant
                c <= self.taken.len(),
                payload == payloads@[i as int],
                forall|k: int|
                    0 <= k < c && (#[trigger] self.taken@[k]).format != payload.format
                        ==> !payload.bears(self.taken@[k].number),
            decreases self.taken.len() - c,
        {
            if self.taken[c].format != payload.format && payload.has_number(self.taken[c].number) {
                assert(self@.taken[c as int].format != payload.format);
                return false;
            }
            c = c + 1;
        }
        let mut j: usize = 0;
        while j < payloads.len()
            invariant
                j <= payloads.len(),
                payload == payloads@[i as int],
                forall|k: int|
                    0 <= k < j && is_open(self@.settled, #[trigger] payloads@[k])
                        && payloads@[k].format != payload.format ==> !payload.clashes(payloads@[k]),
            decreases payloads.len() - j,
        {
            if self.settles(&payloads[j]) && payloads[j].format != payload.format
                && payload.clashes_with(&payloads[j]) {
                return false;
            }
            j = j + 1;
        }
        true
    }

    fn leaves_room_for_all(&self, payloads: &Vec<Payload>) -> (yes: bool)
        ensures
            yes == all_free(self@, payloads@),
    {
        let mut i: usize = 0;
        while i < payloads.len()
            invariant
                i <= payloads.len(),
                forall|k: int|
                    0 <= k < i && is_open(self@.settled, #[trigger] payloads@[k]) ==> is_free(
                        self@,
                        payloads@,
                        k,
                    ),
            decreases payloads.len() - i,
        {
            if self.settles(&payloads[i]) && !self.leaves_room_for(payloads, i) {
                return false;
            }
            i = i + 1;
        }
        true
    }

    fn has_open(&self, payloads: &Vec<Payload>) -> (yes: bool)
        ensures
            yes == some_open(self@, payloads@),
    {
        let mut i: usize = 0;
        while i < payloads.len()
            invariant
                i <= payloads.len(),
                forall|k: int| 0 <= k < i ==> !is_open(self@.settled, #[trigger] payloads@[k]),
            decreases payloads.len() - i,
        {
            if self.settles(&payloads[i]) {
                return true;
            }
            i = i + 1;
        }
        false
    }

    fn claim(&mut self, format: u8, number: u8, resend: Option<u8>)
        ensures
            final(self)@ == (Ledger {
                taken: old(self)@.taken + claims_to(format, number, resend),
                ..old(self)@
            }),
    {
        let ghost before = self.taken@;
        self.taken.push(Claim { format, number });
        if let Some(resend) = resend {
            self.taken.push(Claim { format, number: resend });
        }
        assert(self.taken@ =~= before + claims_to(format, number, resend));
    }

    /// Enters an m-line.
    fn enter(&mut self, line: &Line, offered: bool)
        ensures
            final(self)@ == entered(old(self)@, line@, offered),
    {
        if !(line.media && (!line.known || offered)) {
            return;
        }
        let ghost before = self@;
        let moved = self.moved || (line.sends && !line.receives && !self.leaves_room_for_all(
            &line.payloads,
        ));
        let ghost all = line.payloads@;
        let mut i: usize = 0;
        assert(before.taken + claims_among(before.settled, all.take(0)) =~= before.taken);
        while i < line.payloads.len()
            invariant
                i <= line.payloads.len(),
                all == line.payloads@,
                self@.settled == before.settled,
                self@.moved == before.moved,
                self@.taken == before.taken + claims_among(before.settled, all.take(i as int)),
            decreases line.payloads.len() - i,
        {
            let payload = line.payloads[i];
            proof {
                assert(all.take(i + 1).drop_last() =~= all.take(i as int));
                assert(all.take(i + 1).last() == payload);
            }
            if self.settles(&payload) {
                if let Some(number) = payload.number {
                    self.claim(payload.format, number, payload.resend);
                    assert(self@.taken =~= before.taken + claims_among(
                        before.settled,
                        all.take(i + 1),
                    ));
                }
            }
            i = i + 1;
        }
        assert(all.take(i as int) =~= all);
        let ghost taken = self@.taken;
        if !line.known {
            let mut k: usize = 0;
            assert(before.settled + formats_among(all.take(0)) =~= before.settled);
            while k < line.payloads.len()
                invariant
                    k <= line.payloads.len(),
                    all == line.payloads@,
                    self@.taken == taken,
                    self@.settled == before.settled + formats_among(all.take(k as int)),
                decreases line.payloads.len() - k,
            {
                let payload = line.payloads[k];
                proof {
                    assert(all.take(k + 1).drop_last() =~= all.take(k as int));
                    assert(all.take(k + 1).last() == payload);
                }
                if payload.number.is_some() {
                    self.settled.push(payload.format);
                    assert(self@.settled =~= before.settled + formats_among(all.take(k + 1)));
                }
                k = k + 1;
            }
            assert(all.take(k as int) =~= all);
        }
        self.moved = moved;
    }

    /// Begins with the formats of a session.
    fn new(formats: &Vec<Format>) -> (book: Self)
        ensures
            book@ == ledger_after(formats@, Seq::empty(), true),
            book@ == ledger_after(formats@, Seq::empty(), false),
    {
        let mut book = Book { settled: Vec::new(), taken: Vec::new(), moved: false };
        let ghost all = formats@;
        let mut i: usize = 0;
        assert(book@.settled =~= settled_among(all.take(0)));
        assert(book@.taken =~= numbers_among(all.take(0)));
        while i < formats.len()
            invariant
                i <= formats.len(),
                all == formats@,
                !book@.moved,
                book@.settled == settled_among(all.take(i as int)),
                book@.taken == numbers_among(all.take(i as int)),
            decreases formats.len() - i,
        {
            let format = formats[i];
            proof {
                assert(all.take(i + 1).drop_last() =~= all.take(i as int));
                assert(all.take(i + 1).last() == format);
            }
            if format.settled {
                book.claim(format.number, format.number, format.resend);
                if let Some(red) = format.red {
                    book.taken.push(Claim { format: format.number, number: red });
                }
                book.settled.push(format.number);
            }
            i = i + 1;
        }
        assert(all.take(i as int) =~= all);
        book
    }
}

/// Whether a session with these formats can settle on the numbers of a description.
pub fn can_settle(formats: &Vec<Format>, lines: &Vec<Line>, offered: bool) -> (yes: bool)
    ensures
        yes == numbers_fit(formats@, lines_of(lines@), offered),
{
    let ghost all = lines_of(lines@);
    let mut book = Book::new(formats);
    let mut i: usize = 0;
    assert(all.take(0) =~= Seq::empty());
    while i < lines.len()
        invariant
            i <= lines.len(),
            all == lines_of(lines@),
            book@ == ledger_after(formats@, all.take(i as int), offered),
            numbers_fit(formats@, all.take(i as int), offered),
        decreases lines.len() - i,
    {
        let line = &lines[i];
        proof {
            assert(all.take(i + 1).drop_last() =~= all.take(i as int));
            assert(all.take(i + 1).last() == line@);
        }
        if line.media && (!line.known || offered) && (line.receives || !line.sends) && book.has_open(
            &line.payloads,
        ) && (book.moved || !book.leaves_room_for_all(&line.payloads)) {
            proof {
                assert(!numbers_fit(formats@, all.take(i + 1), offered));
                longer_fits_less(formats@, all, i + 1, offered);
            }
            return false;
        }
        book.enter(line, offered);
        i = i + 1;
    }
    assert(all.take(i as int) =~= all);
    true
}

proof fn longer_fits_less(formats: Seq<Format>, lines: Seq<LineView>, n: int, offered: bool)
    requires
        0 <= n <= lines.len(),
        !numbers_fit(formats, lines.take(n), offered),
    ensures
        !numbers_fit(formats, lines, offered),
    decreases lines.len(),
{
    if n < lines.len() {
        assert(lines.drop_last().take(n) =~= lines.take(n));
        longer_fits_less(formats, lines.drop_last(), n, offered);
    } else {
        assert(lines.take(n) =~= lines);
    }
}

fn read_new_mids(lines: &Vec<Line>) -> (mids: Vec<String>)
    ensures
        texts(mids@) == new_mids(lines_of(lines@)),
{
    let ghost all = lines_of(lines@);
    let mut mids: Vec<String> = Vec::new();
    let mut i: usize = 0;
    assert(texts(mids@) =~= new_mids(all.take(0)));
    while i < lines.len()
        invariant
            i <= lines.len(),
            all == lines_of(lines@),
            texts(mids@) == new_mids(all.take(i as int)),
        decreases lines.len() - i,
    {
        let line = &lines[i];
        proof {
            assert(all.take(i + 1).drop_last() =~= all.take(i as int));
            assert(all.take(i + 1).last() == line@);
        }
        if line.media && !line.known {
            let ghost held = mids@;
            mids.push(line.mid.clone());
            assert(texts(mids@) =~= texts(held).push(line.mid@));
        }
        i = i + 1;
    }
    assert(all.take(i as int) =~= all);
    mids
}

fn holds(names: &Vec<String>, name: &String) -> (yes: bool)
    ensures
        yes == texts(names@).contains(name@),
{
    let mut i: usize = 0;
    while i < names.len()
        invariant
            i <= names.len(),
            forall|j: int| 0 <= j < i ==> #[trigger] texts(names@)[j] != name@,
        decreases names.len() - i,
    {
        if names[i] == *name {
            assert(texts(names@)[i as int] == name@);
            return true;
        }
        i = i + 1;
    }
    false
}

fn brings_what_was_offered(awaited: &Vec<String>, mids: &Vec<String>) -> (yes: bool)
    ensures
        yes == {
            &&& mids.len() == awaited.len()
            &&& forall|i: int|
                0 <= i < mids.len() ==> texts(awaited@).contains(#[trigger] texts(mids@)[i])
        },
{
    if mids.len() != awaited.len() {
        return false;
    }
    let mut i: usize = 0;
    while i < mids.len()
        invariant
            i <= mids.len(),
            forall|j: int| 0 <= j < i ==> texts(awaited@).contains(#[trigger] texts(mids@)[j]),
        decreases mids.len() - i,
    {
        if !holds(awaited, &mids[i]) {
            assert(!texts(awaited@).contains(texts(mids@)[i as int]));
            return false;
        }
        assert(texts(mids@)[i as int] == mids@[i as int]@);
        i = i + 1;
    }
    true
}

/// What a session with these formats cannot stand in an answer, if there is anything.
pub fn find_fault(formats: &Vec<Format>, awaited: &Vec<String>, lines: &Vec<Line>) -> (fault: Option<
    Fault,
>)
    ensures
        fault == answer_fault(formats@, texts(awaited@), lines_of(lines@)),
{
    let mids = read_new_mids(lines);
    if !brings_what_was_offered(awaited, &mids) {
        None
    } else if !all_distinct(&mids) {
        Some(Fault::Repeats)
    } else if !can_settle(formats, lines, false) {
        Some(Fault::Clashes)
    } else {
        None
    }
}

} // verus!
