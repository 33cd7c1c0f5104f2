//! From the bytes that a shell writes to the screen.

use vstd::prelude::*;

use crate::terminal::grid::TerminalGrid;
use crate::terminal::performer;
use crate::terminal::performer::first_values;
use crate::terminal::screen;
use crate::terminal::screen::Screen;

verus! {

/// What a shell asks of the screen.
#[derive(Debug)]
pub enum TermEvent {
    /// To print a character.
    Print(char),
    /// To carry out a control character.
    Execute(u8),
    /// To carry out a control sequence, with its parameters and their sub-parameters.
    Csi(Vec<Vec<u16>>, char),
    /// To carry out an operating system command, with its parameters.
    Osc(Vec<Vec<u8>>),
}

/// What a shell asks of the screen, by its parts.
#[verifier::ext_equal]
pub enum EventView {
    Print(char),
    Execute(u8),
    Csi(Seq<Seq<u16>>, char),
    Osc(Seq<Seq<u8>>),
}

/// The parameters of a control sequence.
pub open spec fn value_params(params: Seq<Vec<u16>>) -> Seq<Seq<u16>> {
    params.map_values(|p: Vec<u16>| p@)
}

impl View for TermEvent {
    type V = EventView;

    open spec fn view(&self) -> EventView {
        match *self {
            TermEvent::Print(c) => EventView::Print(c),
            TermEvent::Execute(b) => EventView::Execute(b),
            TermEvent::Csi(p, a) => EventView::Csi(value_params(p@), a),
            TermEvent::Osc(p) => EventView::Osc(performer::byte_params(p@)),
        }
    }
}

/// What a shell asks for, one after the other.
pub open spec fn event_views(events: Seq<TermEvent>) -> Seq<EventView> {
    events.map_values(|e: TermEvent| e@)
}

/// Whether every parameter of a control sequence has a value.
pub open spec fn has_values(e: EventView) -> bool {
    match e {
        EventView::Csi(p, _) => forall|i: int| 0 <= i < p.len() ==> (#[trigger] p[i]).len() > 0,
        _ => true,
    }
}

/// The first value of every parameter.
pub open spec fn first_of_each(p: Seq<Seq<u16>>) -> Seq<u16> {
    p.map_values(|v: Seq<u16>| v[0])
}

/// The screen once what a shell asks for has been shown. What cannot be shown changes nothing:
/// what needs a row where there is none, and a control sequence with a parameter without a value.
pub open spec fn shown(g: Screen, e: EventView) -> Screen {
    match e {
        EventView::Print(c) => if screen::print_allowed(g, c) {
            screen::printed(g, c)
        } else {
            g
        },
        EventView::Execute(b) => if g.rows > 0 || !(10 <= b <= 12) {
            screen::executed(g, b)
        } else {
            g
        },
        EventView::Csi(p, a) => if has_values(e) && screen::csi_allowed(g, first_of_each(p), a) {
            screen::dispatched(g, first_of_each(p), a)
        } else {
            g
        },
        EventView::Osc(p) => performer::commanded(g, p),
    }
}

/// The screen once all that a shell asks for has been shown.
pub open spec fn all_shown(g: Screen, events: Seq<EventView>) -> Screen
    decreases events.len(),
{
    if events.len() == 0 {
        g
    } else {
        shown(all_shown(g, events.drop_last()), events.last())
    }
}

/// `vte::Parser`, which knows where in an escape sequence the bytes so far have ended.
#[verifier::external_type_specification]
#[verifier::external_body]
pub struct ExParser<const N: usize>(vte::Parser<N>);

/// `vte::Params`, the parameters of a control sequence.
#[verifier::external_type_specification]
#[verifier::external_body]
pub struct ExParams(vte::Params);

/// `vte::Parser::new`: a parser that has read nothing.
pub assume_specification[ vte::Parser::new ]() -> (r: vte::Parser)
;

/// Collects what the parser reports. Device control strings and escape sequences without
/// parameters are passed over.
struct Reports {
    list: Vec<TermEvent>,
}

impl vte::Perform for Reports {
    fn print(&mut self, c: char) {
        self.list.push(TermEvent::Print(c));
    }

    fn execute(&mut self, byte: u8) {
        self.list.push(TermEvent::Execute(byte));
    }

    /// Keeps a control sequence, with the values that `vte::Params::iter` gives. Nothing is claimed
    /// of it here.
    #[verifier::external_body]
    fn csi_dispatch(
        &mut self,
        params: &vte::Params,
        _intermediates: &[u8],
        _ignore: bool,
        action: char,
    ) {
        self.list.push(TermEvent::Csi(params.iter().map(|p| p.to_vec()).collect(), action));
    }

    /// Keeps an operating system command, with copies of its parameters. Nothing is claimed of it
    /// here.
    #[verifier::external_body]
    fn osc_dispatch(&mut self, params: &[&[u8]], _bell_terminated: bool) {
        self.list.push(TermEvent::Osc(params.iter().map(|p| p.to_vec()).collect()));
    }
}

/// Reads what a shell writes, byte for byte.
pub struct EscapeParser {
    parser: vte::Parser,
    fed: Ghost<Seq<u8>>,
}

impl View for EscapeParser {
    type V = Seq<u8>;

    /// The bytes that have been read so far.
    closed spec fn view(&self) -> Seq<u8> {
        self.fed@
    }
}

/// What `vte::Parser::advance` reports on a byte to a parser that has read some bytes before.
pub uninterp spec fn reported(fed: Seq<u8>, byte: u8) -> Seq<EventView>;

impl EscapeParser {
    /// A parser that has read nothing.
    pub fn new() -> (r: EscapeParser)
        ensures
            r@ == Seq::<u8>::empty(),
    {
        EscapeParser { parser: vte::Parser::new(), fed: Ghost(Seq::empty()) }
    }

    /// `vte::Parser::advance`: what it reports on a byte, in its order. That is a function of the
    /// byte and of those that the parser has read before. Every parameter of a control sequence
    /// has a value.
    #[verifier::external_body]
    fn advance(&mut self, byte: u8) -> (r: Vec<TermEvent>)
        ensures
            final(self)@ == old(self)@.push(byte),
            event_views(r@) == reported(old(self)@, byte),
            forall|i: int| 0 <= i < r@.len() ==> has_values((#[trigger] r@[i])@),
    {
        let mut reports = Reports { list: Vec::new() };
        self.parser.advance(&mut reports, byte);
        reports.list
    }
}

/// Whether every parameter has a value.
fn are_valued(params: &Vec<Vec<u16>>) -> (r: bool)
    ensures
        r == performer::all_valued(params@),
{
    let mut i: usize = 0;
    while i < params.len()
        invariant
            i <= params@.len(),
            forall|k: int| 0 <= k < i ==> (#[trigger] params@[k])@.len() > 0,
        decreases params@.len() - i,
    {
        if params[i].len() == 0 {
            assert(params@[i as int]@.len() == 0);
            return false;
        }
        i += 1;
    }
    true
}

/// The screen once the bytes that a shell writes have been read, behind some that were read
/// before.
pub open spec fn screen_after(g: Screen, fed: Seq<u8>, bytes: Seq<u8>) -> Screen
    decreases bytes.len(),
{
    if bytes.len() == 0 {
        g
    } else {
        all_shown(
            screen_after(g, fed, bytes.drop_last()),
            reported(fed + bytes.drop_last(), bytes.last()),
        )
    }
}

impl TerminalGrid {
    /// Shows what a shell asks for.
    pub fn show(&mut self, event: &TermEvent)
        requires
            old(self).wf(),
        ensures
            final(self).wf(),
            final(self)@ == shown(old(self)@, event@),
    {
        match event {
            TermEvent::Print(c) => {
                if self.can_print(*c) {
                    self.put_char(*c);
                }
            },
            TermEvent::Execute(b) => {
                let b: u8 = *b;
                if self.rows > 0 || b < 10 || b > 12 {
                    self.apply_control(b);
                }
            },
            TermEvent::Csi(params, action) => {
                let ghost values = value_params(params@);
                assert(has_values(event@) == performer::all_valued(params@)) by {
                    assert forall|i: int| 0 <= i < params@.len() implies #[trigger] values[i]
                        == params@[i]@ by {}
                    if has_values(event@) {
                        assert forall|i: int| 0 <= i < params@.len() implies (
                        #[trigger] params@[i])@.len() > 0 by {
                            assert(values[i].len() > 0);
                        }
                    }
                }
                if are_valued(params) {
                    let p = first_values(params.as_slice());
                    assert(p@ =~= first_of_each(values));
                    if self.can_dispatch(p.as_slice(), *action) {
                        self.apply_sequence(p.as_slice(), *action);
                    }
                }
            },
            TermEvent::Osc(params) => {
                self.apply_command(params.as_slice());
            },
        }
    }

    /// Shows all that a shell asks for.
    pub fn show_all(&mut self, events: &Vec<TermEvent>)
        requires
            old(self).wf(),
        ensures
            final(self).wf(),
            final(self)@ == all_shown(old(self)@, event_views(events@)),
    {
        let ghost first = self@;
        let ghost all = event_views(events@);
        let mut i: usize = 0;
        while i < events.len()
            invariant
                i <= events@.len(),
                all == event_views(events@),
                self.wf(),
                self@ == all_shown(first, all.take(i as int)),
            decreases events@.len() - i,
        {
            proof {
                assert(all.take(i + 1).drop_last() =~= all.take(i as int));
                assert(all.take(i + 1).last() == events@[i as int]@);
            }
            self.show(&events[i]);
            i += 1;
        }
        assert(all.take(i as int) =~= all);
    }

    /// Reads a byte that a shell writes, and shows what it asks for.
    pub fn feed(&mut self, parser: &mut EscapeParser, byte: u8)
        requires
            old(self).wf(),
        ensures
            final(self).wf(),
            final(parser)@ == old(parser)@.push(byte),
            final(self)@ == all_shown(old(self)@, reported(old(parser)@, byte)),
    {
        let events = parser.advance(byte);
        self.show_all(&events);
    }

    /// Reads the bytes that a shell writes, and shows what they ask for.
    pub fn feed_all(&mut self, parser: &mut EscapeParser, bytes: &[u8])
        requires
            old(self).wf(),
        ensures
            final(self).wf(),
            final(parser)@ == old(parser)@ + bytes@,
            final(self)@ == screen_after(old(self)@, old(parser)@, bytes@),
    {
        let ghost first = self@;
        let ghost fed = parser@;
        let mut i: usize = 0;
        assert(fed + bytes@.take(0) =~= fed);
        while i < bytes.len()
            invariant
                i <= bytes@.len(),
                self.wf(),
                parser@ == fed + bytes@.take(i as int),
                self@ == screen_after(first, fed, bytes@.take(i as int)),
            decreases bytes@.len() - i,
        {
            proof {
                assert(bytes@.take(i + 1).drop_last() =~= bytes@.take(i as int));
                assert(bytes@.take(i + 1).last() == bytes@[i as int]);
                assert((fed + bytes@.take(i as int)).push(bytes@[i as int]) =~= fed + bytes@.take(
                    i + 1,
                ));
            }
            self.feed(parser, bytes[i]);
            i += 1;
        }
        assert(bytes@.take(i as int) =~= bytes@);
    }
}

/// It does not matter in which pieces the bytes of a shell come.
pub proof fn pieces_do_not_matter(g: Screen, fed: Seq<u8>, a: Seq<u8>, b: Seq<u8>)
    ensures
        screen_after(g, fed, a + b) == screen_after(screen_after(g, fed, a), fed + a, b),
    decreases b.len(),
{
    if b.len() == 0 {
        assert(a + b =~= a);
    } else {
        pieces_do_not_matter(g, fed, a, b.drop_last());
        assert((a + b).drop_last() =~= a + b.drop_last());
        assert(fed + (a + b.drop_last()) =~= fed + a + b.drop_last());
    }
}

/// On a screen with rows everything that a shell asks for is shown: a character is printed, a control
/// character is carried out, and so are a control sequence, by the first value of each parameter, and
/// an operating system command.
pub proof fn everything_is_shown_on_a_screen_with_rows(
    g: Screen,
    c: char,
    b: u8,
    params: Seq<Seq<u16>>,
    values: Seq<u16>,
    action: char,
    command: Seq<Seq<u8>>,
)
    requires
        screen::well_formed(g),
        g.rows > 0,
        params.len() == values.len(),
        forall|i: int|
            0 <= i < params.len() ==> (#[trigger] params[i]).len() > 0 && params[i][0] == values[i],
    ensures
        shown(g, EventView::Print(c)) == screen::printed(g, c),
        shown(g, EventView::Execute(b)) == screen::executed(g, b),
        shown(g, EventView::Csi(params, action)) == screen::dispatched(g, values, action),
        shown(g, EventView::Osc(command)) == performer::commanded(g, command),
{
    assert(first_of_each(params) =~= values);
}

/// What a shell asks for is shown in its order, each on the screen that the one before it left.
pub proof fn events_are_shown_in_turn(
    g: Screen,
    a: Seq<EventView>,
    b: Seq<EventView>,
    e: EventView,
)
    ensures
        all_shown(g, Seq::empty()) == g,
        all_shown(g, seq![e]) == shown(g, e),
        all_shown(g, a + b) == all_shown(all_shown(g, a), b),
    decreases b.len(),
{
    reveal_with_fuel(all_shown, 2);
    assert(seq![e].drop_last() =~= Seq::<EventView>::empty());
    if b.len() == 0 {
        assert(a + b =~= a);
    } else {
        events_are_shown_in_turn(g, a, b.drop_last(), e);
        assert((a + b).drop_last() =~= a + b.drop_last());
        assert((a + b).last() == b.last());
    }
}

} // verus!
