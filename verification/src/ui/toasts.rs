//! Short messages that go away by themselves. Times are nanoseconds.

use vstd::prelude::*;

verus! {

/// How long a message stays: three seconds.
pub const TOAST_DURATION: u64 = 3_000_000_000;

/// How long a message takes to come and to go: 300 milliseconds.
pub const FADE_DURATION: u64 = 300_000_000;

/// How many messages are kept.
pub const MAX_TOASTS: usize = 5;

/// A message.
#[derive(Debug)]
pub struct Toast {
    pub message: String,
    pub created_at: u64,
}

/// A message by its text and time.
pub type ToastView = (Seq<char>, u64);

/// All messages.
#[derive(Debug)]
pub struct Toasts {
    pub items: Vec<Toast>,
}

impl View for Toasts {
    type V = Seq<ToastView>;

    open spec fn view(&self) -> Seq<ToastView> {
        self.items@.map_values(|t: Toast| (t.message@, t.created_at))
    }
}

/// How old a message is.
pub open spec fn age_of(created_at: u64, now: u64) -> int {
    if now >= created_at {
        now - created_at
    } else {
        0
    }
}

/// How far a message has come or gone.
#[derive(Clone, Copy, Debug, PartialEq, Eq, Structural)]
pub enum Fade {
    /// So much of the fade has passed.
    In(u64),
    Full,
    /// So much of the fade is left.
    Out(u64),
}

/// How far a message of this age has come or gone.
pub open spec fn fade_at(age: int) -> Fade {
    if age < FADE_DURATION {
        Fade::In(age as u64)
    } else if age > TOAST_DURATION - FADE_DURATION {
        Fade::Out(
            if age <= TOAST_DURATION {
                (TOAST_DURATION - age) as u64
            } else {
                0
            },
        )
    } else {
        Fade::Full
    }
}

impl Toast {
    /// How old the message is.
    pub fn age(&self, now: u64) -> (r: u64)
        ensures
            r == age_of(self.created_at, now),
    {
        if now >= self.created_at {
            now - self.created_at
        } else {
            0
        }
    }

    /// How far the message has come or gone.
    pub fn fade(&self, now: u64) -> (r: Fade)
        ensures
            r == fade_at(age_of(self.created_at, now)),
    {
        let age = self.age(now);
        if age < FADE_DURATION {
            Fade::In(age)
        } else if age > TOAST_DURATION - FADE_DURATION {
            if age <= TOAST_DURATION {
                Fade::Out(TOAST_DURATION - age)
            } else {
                Fade::Out(0)
            }
        } else {
            Fade::Full
        }
    }

    /// Whether the message is gone.
    pub fn expired(&self, now: u64) -> (r: bool)
        ensures
            r == (age_of(self.created_at, now) >= TOAST_DURATION),
    {
        self.age(now) >= TOAST_DURATION
    }
}

impl Default for Toasts {
    fn default() -> (r: Toasts)
        ensures
            r@.len() == 0,
    {
        Toasts { items: Vec::new() }
    }
}

/// The messages once one more has come: at most the newest five.
pub open spec fn toasts_with(items: Seq<ToastView>, t: ToastView) -> Seq<ToastView> {
    let all = items.push(t);
    if all.len() > MAX_TOASTS {
        all.remove(0)
    } else {
        all
    }
}

/// The messages that are not gone yet.
pub open spec fn still_shown(items: Seq<ToastView>, now: u64) -> Seq<ToastView> {
    items.filter(|t: ToastView| age_of(t.1, now) < TOAST_DURATION)
}

impl Toasts {
    /// Shows a message.
    pub fn push(&mut self, message: String, now: u64)
        ensures
            final(self)@ == toasts_with(old(self)@, (message@, now)),
    {
        let ghost before = self@;
        let ghost v = (message@, now);
        self.items.push(Toast { message, created_at: now });
        assert(self@ =~= before.push(v));
        if self.items.len() > MAX_TOASTS {
            let ghost all = self@;
            let _ = self.items.remove(0);
            assert(self@ =~= all.remove(0));
        }
    }

    /// Forgets the messages that are gone.
    pub fn remove_expired(&mut self, now: u64)
        ensures
            final(self)@ == still_shown(old(self)@, now),
    {
        let ghost all = self@;
        let ghost yes = |t: ToastView| age_of(t.1, now) < TOAST_DURATION;
        let mut kept: Vec<Toast> = Vec::new();
        let mut rest: Vec<Toast> = Vec::new();
        std::mem::swap(&mut rest, &mut self.items);
        let n: usize = rest.len();
        let mut i: usize = 0;
        let ghost first = rest@;
        proof {
            reveal(Seq::filter);
            assert(all == first.map_values(|t: Toast| (t.message@, t.created_at)));
            assert((Toasts { items: kept })@ =~= all.take(0).filter(yes));
            assert(first.skip(0) =~= first);
        }
        while i < n
            invariant
                i <= n == first.len(),
                rest@ == first.skip(i as int),
                all == first.map_values(|t: Toast| (t.message@, t.created_at)),
                yes == (|t: ToastView| age_of(t.1, now) < TOAST_DURATION),
                kept@.map_values(|t: Toast| (t.message@, t.created_at)) == all.take(
                    i as int,
                ).filter(yes),
            decreases n - i,
        {
            proof {
                reveal(Seq::filter);
                assert(all.take(i + 1).drop_last() =~= all.take(i as int));
                assert(all.take(i + 1).last() == all[i as int]);
            }
            let t = rest.remove(0);
            assert(t == first[i as int]);
            assert(rest@ =~= first.skip(i + 1));
            if !t.expired(now) {
                let ghost before = kept@.map_values(|x: Toast| (x.message@, x.created_at));
                let ghost v = (t.message@, t.created_at);
                kept.push(t);
                assert(kept@.map_values(|x: Toast| (x.message@, x.created_at)) =~= before.push(v));
            }
            i += 1;
        }
        assert(all.take(i as int) =~= all);
        self.items = kept;
    }
}

/// However many messages come, at most five are kept, and the newest is always among them.
pub proof fn newest_message_is_kept(items: Seq<ToastView>, t: ToastView)
    requires
        items.len() <= MAX_TOASTS,
    ensures
        toasts_with(items, t).len() <= MAX_TOASTS,
        toasts_with(items, t).last() == t,
{
}

/// A message that is gone is not shown, and one that is not gone stays.
pub proof fn only_expired_messages_go(items: Seq<ToastView>, now: u64, i: int)
    requires
        0 <= i < items.len(),
    ensures
        still_shown(items, now).contains(items[i]) == (age_of(items[i].1, now) < TOAST_DURATION),
{
    let f = |t: ToastView| age_of(t.1, now) < TOAST_DURATION;
    let kept = items.filter(f);
    assert(kept == still_shown(items, now));
    if f(items[i]) {
        items.lemma_filter_contains(f, i);
    }
    assert forall|k: int| 0 <= k < kept.len() implies f(#[trigger] kept[k]) by {
        items.lemma_filter_pred(f, k);
    }
}

/// A message is shown for three seconds. It comes up in the first 0.3 of them and goes away in the last
/// 0.3, and the longer it has been there the further it has come or gone.
pub proof fn message_comes_and_goes(age: int)
    requires
        0 <= age,
    ensures
        age < 300_000_000 ==> fade_at(age) == Fade::In(age as u64),
        300_000_000 <= age <= 2_700_000_000 ==> fade_at(age) == Fade::Full,
        2_700_000_000 < age <= 3_000_000_000 ==> fade_at(age) == Fade::Out(
            (3_000_000_000 - age) as u64,
        ),
        age > 3_000_000_000 ==> fade_at(age) == Fade::Out(0),
{
}

/// A message is shown until it is three seconds old, whatever the others are, and the order stays.
pub proof fn messages_are_shown_for_three_seconds(
    a: Seq<ToastView>,
    b: Seq<ToastView>,
    t: ToastView,
    now: u64,
)
    ensures
        still_shown(a + b, now) == still_shown(a, now) + still_shown(b, now),
        now < t.1 + 3_000_000_000 ==> still_shown(seq![t], now) == seq![t],
        now >= t.1 + 3_000_000_000 ==> still_shown(seq![t], now).len() == 0,
    decreases b.len(),
{
    reveal(Seq::filter);
    reveal_with_fuel(Seq::filter, 2);
    let one = seq![t];
    assert(one.drop_last() =~= Seq::<ToastView>::empty());
    assert(one.last() == t);
    assert(now < t.1 + 3_000_000_000 ==> still_shown(one, now) =~= one);
    if b.len() == 0 {
        assert(a + b =~= a);
        assert(still_shown(a, now) + still_shown(b, now) =~= still_shown(a, now));
    } else {
        messages_are_shown_for_three_seconds(a, b.drop_last(), t, now);
        assert((a + b).drop_last() =~= a + b.drop_last());
        assert((a + b).last() == b.last());
        assert(still_shown(a + b, now) =~= still_shown(a, now) + still_shown(b, now));
    }
}

/// At most five messages are shown: a new one comes behind the others, and the oldest makes room.
pub proof fn oldest_message_makes_room(items: Seq<ToastView>, t: ToastView)
    requires
        items.len() <= 5,
    ensures
        toasts_with(items, t).len() <= 5,
        toasts_with(items, t).len() > 0 && toasts_with(items, t).last() == t,
        items.len() < 5 ==> toasts_with(items, t) == items + seq![t],
        items.len() == 5 ==> toasts_with(items, t) == items.skip(1) + seq![t],
{
    assert(items.len() < 5 ==> toasts_with(items, t) =~= items + seq![t]);
    assert(items.len() == 5 ==> toasts_with(items, t) =~= items.skip(1) + seq![t]);
}

/// The age of a message is the time since it came up, and nothing where the clock is behind that.
pub proof fn age_is_the_time_since(created_at: u64, passed: u64)
    ensures
        created_at + passed <= u64::MAX ==> age_of(created_at, (created_at + passed) as u64)
            == passed,
        passed <= created_at ==> age_of(created_at, (created_at - passed) as u64) == 0,
{
}

} // verus!
