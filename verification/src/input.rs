//! Turning raw input reports into press, release and twist events.
use vstd::prelude::*;

use crate::error::AjazzError;

verus! {

/// A decoded input report.
#[derive(Clone, Debug, PartialEq, Eq)]
pub enum AjazzInput {
    /// The report carried nothing of interest.
    NoData,
    /// For each button, whether its pressed state changed.
    ButtonStateChange(Vec<bool>),
    /// For each encoder, whether its pressed state changed.
    EncoderStateChange(Vec<bool>),
    /// For each encoder, the number of detents it was turned (negative: counter-clockwise).
    EncoderTwist(Vec<i8>),
}

/// An input event.
#[derive(Clone, Copy, Debug, PartialEq, Eq, Structural)]
pub enum Event {
    /// A button was pressed.
    ButtonDown(u8),
    /// A button was released.
    ButtonUp(u8),
    /// An encoder was pressed.
    EncoderDown(u8),
    /// An encoder was released.
    EncoderUp(u8),
    /// An encoder was turned by the given number of detents.
    EncoderTwist(u8, i8),
}

/// The pressed state of every button and encoder.
#[derive(Clone, Debug, PartialEq, Eq)]
pub struct DeviceState {
    /// Whether each button is held down.
    pub buttons: Vec<bool>,
    /// Whether each encoder is held down.
    pub encoders: Vec<bool>,
}

impl DeviceState {
    /// Every button and encoder released.
    pub fn new(button_count: usize, encoder_count: usize) -> (r: DeviceState)
        ensures
            r.buttons@ == Seq::new(button_count as nat, |i: int| false),
            r.encoders@ == Seq::new(encoder_count as nat, |i: int| false),
    {
        DeviceState { buttons: all_released(button_count), encoders: all_released(encoder_count) }
    }
}

fn all_released(n: usize) -> (r: Vec<bool>)
    ensures
        r@ == Seq::new(n as nat, |i: int| false),
{
    let mut v: Vec<bool> = Vec::new();
    let mut i: usize = 0;
    while i < n
        invariant
            i <= n,
            v@ == Seq::new(i as nat, |j: int| false),
        decreases n - i,
    {
        v.push(false);
        i = i + 1;
        proof {
            assert(v@ =~= Seq::new(i as nat, |j: int| false));
        }
    }
    v
}

/// `state` with every position whose change flag is set flipped.
pub open spec fn toggled(state: Seq<bool>, changes: Seq<bool>) -> Seq<bool> {
    Seq::new(state.len(), |i: int| if i < changes.len() && changes[i] { !state[i] } else { state[i] })
}

/// The press or release event for position `index`, which is now down or up.
pub open spec fn press_event(is_button: bool, index: int, now_down: bool) -> Event {
    if is_button {
        if now_down {
            Event::ButtonDown(index as u8)
        } else {
            Event::ButtonUp(index as u8)
        }
    } else {
        if now_down {
            Event::EncoderDown(index as u8)
        } else {
            Event::EncoderUp(index as u8)
        }
    }
}

/// Events for the first `n` change flags: in order, one for each set flag, down when the
/// position was up before and up when it was down.
pub open spec fn press_events(is_button: bool, changes: Seq<bool>, state: Seq<bool>, n: int) -> Seq<Event>
    decreases n,
{
    if n <= 0 {
        Seq::empty()
    } else {
        let earlier = press_events(is_button, changes, state, n - 1);
        if changes[n - 1] {
            earlier.push(press_event(is_button, n - 1, !state[n - 1]))
        } else {
            earlier
        }
    }
}

/// Twist events for the first `n` encoders: in order, one for each encoder that moved.
pub open spec fn twist_events(twist: Seq<i8>, n: int) -> Seq<Event>
    decreases n,
{
    if n <= 0 {
        Seq::empty()
    } else {
        let earlier = twist_events(twist, n - 1);
        if twist[n - 1] != 0 {
            earlier.push(Event::EncoderTwist((n - 1) as u8, twist[n - 1]))
        } else {
            earlier
        }
    }
}

/// The events that `input` produces from the button and encoder states `buttons`, `encoders`.
pub open spec fn spec_input_events(input: AjazzInput, buttons: Seq<bool>, encoders: Seq<bool>) -> Seq<Event> {
    match input {
        AjazzInput::ButtonStateChange(changes) => press_events(true, changes@, buttons, changes@.len() as int),
        AjazzInput::EncoderStateChange(changes) => press_events(false, changes@, encoders, changes@.len() as int),
        AjazzInput::EncoderTwist(twist) => twist_events(twist@, twist@.len() as int),
        AjazzInput::NoData => Seq::empty(),
    }
}

/// The button states after `input`.
pub open spec fn spec_next_buttons(input: AjazzInput, buttons: Seq<bool>) -> Seq<bool> {
    match input {
        AjazzInput::ButtonStateChange(changes) => toggled(buttons, changes@),
        _ => buttons,
    }
}

/// The encoder states after `input`.
pub open spec fn spec_next_encoders(input: AjazzInput, encoders: Seq<bool>) -> Seq<bool> {
    match input {
        AjazzInput::EncoderStateChange(changes) => toggled(encoders, changes@),
        _ => encoders,
    }
}

/// Every set change flag names a position of `state`.
pub open spec fn flags_in_range(changes: Seq<bool>, state: Seq<bool>) -> bool {
    forall|i: int| 0 <= i < changes.len() && #[trigger] changes[i] ==> i < state.len()
}

/// The report fits the state: every set change flag names an existing position.
pub open spec fn input_fits(input: AjazzInput, buttons: Seq<bool>, encoders: Seq<bool>) -> bool {
    match input {
        AjazzInput::ButtonStateChange(changes) => flags_in_range(changes@, buttons),
        AjazzInput::EncoderStateChange(changes) => flags_in_range(changes@, encoders),
        _ => true,
    }
}

fn toggle_all(is_button: bool, changes: &Vec<bool>, state: &mut Vec<bool>, updates: &mut Vec<Event>)
    requires
        flags_in_range(changes@, old(state)@),
    ensures
        final(state)@ == toggled(old(state)@, changes@),
        final(updates)@ == old(updates)@ + press_events(is_button, changes@, old(state)@, changes@.len() as int),
{
    let ghost start = state@;
    let ghost first = updates@;
    let mut index: usize = 0;
    while index < changes.len()
        invariant
            index <= changes@.len(),
            flags_in_range(changes@, start),
            state@.len() == start.len(),
            forall|j: int|
                0 <= j < start.len() ==> #[trigger] state@[j] == (if j < index && changes@[j] {
                    !start[j]
                } else {
                    start[j]
                }),
            updates@ == first + press_events(is_button, changes@, start, index as int),
        decreases changes@.len() - index,
    {
        if changes[index] {
            let now = !state[index];
            state.set(index, now);
            let event = if is_button {
                if now {
                    Event::ButtonDown(index as u8)
                } else {
                    Event::ButtonUp(index as u8)
                }
            } else {
                if now {
                    Event::EncoderDown(index as u8)
                } else {
                    Event::EncoderUp(index as u8)
                }
            };
            updates.push(event);
            proof {
                assert(event == press_event(is_button, index as int, !start[index as int]));
                assert(updates@ =~= first + press_events(is_button, changes@, start, index + 1));
            }
        }
        index = index + 1;
    }
    proof {
        assert(state@ =~= toggled(start, changes@));
    }
}

fn twists(twist: &Vec<i8>, updates: &mut Vec<Event>)
    ensures
        final(updates)@ == old(updates)@ + twist_events(twist@, twist@.len() as int),
{
    let ghost first = updates@;
    let mut index: usize = 0;
    while index < twist.len()
        invariant
            index <= twist@.len(),
            updates@ == first + twist_events(twist@, index as int),
        decreases twist@.len() - index,
    {
        let change = twist[index];
        if change != 0 {
            updates.push(Event::EncoderTwist(index as u8, change));
            proof {
                assert(updates@ =~= first + twist_events(twist@, index + 1));
            }
        }
        index = index + 1;
    }
}

/// Applies an input report to the tracked state and returns the resulting events: each set
/// change flag flips its position and yields a down event when the position is now held and
/// an up event when it is now released; each non-zero twist yields a twist event.
pub fn handle_input_state_change(input: AjazzInput, current_state: &mut DeviceState) -> (r: Result<Vec<Event>, AjazzError>)
    requires
        input_fits(input, old(current_state).buttons@, old(current_state).encoders@),
    ensures
        r matches Ok(events) && events@ == spec_input_events(
            input,
            old(current_state).buttons@,
            old(current_state).encoders@,
        ),
        final(current_state).buttons@ == spec_next_buttons(input, old(current_state).buttons@),
        final(current_state).encoders@ == spec_next_encoders(input, old(current_state).encoders@),
{
    let mut updates: Vec<Event> = Vec::new();
    match input {
        AjazzInput::ButtonStateChange(buttons) => {
            toggle_all(true, &buttons, &mut current_state.buttons, &mut updates);
        },
        AjazzInput::EncoderStateChange(encoders) => {
            toggle_all(false, &encoders, &mut current_state.encoders, &mut updates);
        },
        AjazzInput::EncoderTwist(twist) => {
            twists(&twist, &mut updates);
        },
        _ => {},
    }
    proof {
        assert(updates@ =~= spec_input_events(input, old(current_state).buttons@, old(current_state).encoders@));
    }
    Ok(updates)
}

/// The event with the opposite direction: a press for a release and a release for a press.
pub open spec fn opposite(e: Event) -> Event {
    match e {
        Event::ButtonDown(i) => Event::ButtonUp(i),
        Event::ButtonUp(i) => Event::ButtonDown(i),
        Event::EncoderDown(i) => Event::EncoderUp(i),
        Event::EncoderUp(i) => Event::EncoderDown(i),
        Event::EncoderTwist(i, d) => Event::EncoderTwist(i, d),
    }
}

/// Applying a change report a second time reports the same positions in the same order, each
/// in the opposite direction.
pub proof fn lemma_second_application_reverses(is_button: bool, changes: Seq<bool>, state: Seq<bool>, n: int)
    requires
        0 <= n <= changes.len(),
        flags_in_range(changes, state),
    ensures
        press_events(is_button, changes, toggled(state, changes), n) == press_events(is_button, changes, state, n).map_values(
            |e: Event| opposite(e),
        ),
    decreases n,
{
    let f = |e: Event| opposite(e);
    if n > 0 {
        lemma_second_application_reverses(is_button, changes, state, n - 1);
        let before = press_events(is_button, changes, state, n - 1);
        if changes[n - 1] {
            assert(n - 1 < state.len());
            assert(toggled(state, changes)[n - 1] == !state[n - 1]);
            assert(before.push(press_event(is_button, n - 1, !state[n - 1])).map_values(f) =~= before.map_values(f).push(
                f(press_event(is_button, n - 1, !state[n - 1])),
            ));
        }
    } else {
        assert(Seq::<Event>::empty().map_values(f) =~= Seq::<Event>::empty());
    }
}

/// A change report applied twice leaves the state as it was.
pub proof fn lemma_toggle_twice(state: Seq<bool>, changes: Seq<bool>)
    ensures
        toggled(toggled(state, changes), changes) == state,
{
    assert(toggled(toggled(state, changes), changes) =~= state);
}

/// There is one press event per set change flag, and each one tells the position's new state:
/// a down event for a position that is now held, an up event for one that is now released.
pub proof fn lemma_press_events_match_state(is_button: bool, changes: Seq<bool>, state: Seq<bool>, n: int)
    requires
        0 <= n <= changes.len(),
        flags_in_range(changes, state),
    ensures
        press_events(is_button, changes, state, n).len() == changes.take(n).filter(|b: bool| b).len(),
        forall|j: int|
            0 <= j < n && changes[j] ==> press_events(is_button, changes, state, n).contains(
                press_event(is_button, j, #[trigger] toggled(state, changes)[j]),
            ),
        forall|k: int|
            0 <= k < press_events(is_button, changes, state, n).len() ==> exists|j: int|
                0 <= j < n && changes[j] && #[trigger] press_events(is_button, changes, state, n)[k] == press_event(
                    is_button,
                    j,
                    toggled(state, changes)[j],
                ),
    decreases n,
{
    let f = |b: bool| b;
    if n > 0 {
        lemma_press_events_match_state(is_button, changes, state, n - 1);
        let earlier = press_events(is_button, changes, state, n - 1);
        let now = press_events(is_button, changes, state, n);
        assert(changes.take(n).drop_last() =~= changes.take(n - 1));
        assert(changes.take(n).last() == changes[n - 1]);
        reveal(Seq::filter);
        assert forall|j: int|
            0 <= j < n && changes[j] implies now.contains(
                press_event(is_button, j, #[trigger] toggled(state, changes)[j]),
            ) by {
            if j < n - 1 {
                let e = press_event(is_button, j, toggled(state, changes)[j]);
                let k = choose|k: int| 0 <= k < earlier.len() && earlier[k] == e;
                assert(now[k] == e);
            } else {
                assert(now[now.len() - 1] == press_event(is_button, j, toggled(state, changes)[j]));
            }
        }
        assert forall|k: int| 0 <= k < now.len() implies exists|j: int|
            0 <= j < n && changes[j] && #[trigger] now[k] == press_event(is_button, j, toggled(state, changes)[j]) by {
            if k < earlier.len() {
                assert(now[k] == earlier[k]);
                let j = choose|j: int|
                    0 <= j < n - 1 && changes[j] && earlier[k] == press_event(is_button, j, toggled(state, changes)[j]);
                assert(0 <= j < n && changes[j] && now[k] == press_event(is_button, j, toggled(state, changes)[j]));
            } else {
                assert(now[k] == press_event(is_button, n - 1, toggled(state, changes)[n - 1]));
            }
        }
    } else {
        assert(changes.take(0).filter(f) =~= Seq::<bool>::empty());
    }
}

/// The press event for position `j` in a report: a press where the position was up, a
/// release where it was down.
pub open spec fn flip_event(is_button: bool, j: int, was_down: bool) -> Event {
    if is_button {
        if was_down {
            Event::ButtonUp(j as u8)
        } else {
            Event::ButtonDown(j as u8)
        }
    } else {
        if was_down {
            Event::EncoderUp(j as u8)
        } else {
            Event::EncoderDown(j as u8)
        }
    }
}

/// A change report flips exactly the positions whose flag is set, and yields one event per set
/// flag: a press for a position that was up and a release for one that was down, and nothing
/// else.
pub proof fn lemma_change_report(is_button: bool, c: Seq<bool>, state: Seq<bool>)
    requires
        flags_in_range(c, state),
    ensures
        toggled(state, c).len() == state.len(),
        forall|i: int| 0 <= i < state.len() ==> (#[trigger] toggled(state, c)[i] != state[i] <==> (i < c.len() && c[i])),
        press_events(is_button, c, state, c.len() as int).len() == c.filter(|b: bool| b).len(),
        forall|j: int|
            0 <= j < c.len() && #[trigger] c[j] ==> press_events(is_button, c, state, c.len() as int).contains(
                flip_event(is_button, j, state[j]),
            ),
        forall|k: int|
            0 <= k < press_events(is_button, c, state, c.len() as int).len() ==> exists|j: int|
                0 <= j < c.len() && c[j] && #[trigger] press_events(is_button, c, state, c.len() as int)[k] == flip_event(
                    is_button,
                    j,
                    state[j],
                ),
{
    let ev = press_events(is_button, c, state, c.len() as int);
    lemma_press_events_match_state(is_button, c, state, c.len() as int);
    assert(c.take(c.len() as int) =~= c);
    assert forall|j: int| 0 <= j < c.len() && #[trigger] c[j] implies ev.contains(flip_event(is_button, j, state[j])) by {
        assert(toggled(state, c)[j] == !state[j]);
        assert(press_event(is_button, j, toggled(state, c)[j]) == flip_event(is_button, j, state[j]));
    }
    assert forall|k: int| 0 <= k < ev.len() implies exists|j: int|
        0 <= j < c.len() && c[j] && #[trigger] ev[k] == flip_event(is_button, j, state[j]) by {
        let j = choose|j: int| 0 <= j < c.len() && c[j] && ev[k] == press_event(is_button, j, toggled(state, c)[j]);
        assert(toggled(state, c)[j] == !state[j]);
        assert(press_event(is_button, j, toggled(state, c)[j]) == flip_event(is_button, j, state[j]));
    }
}

/// Which state and which events each kind of report touches: button reports change only the
/// buttons and yield button events, encoder reports change only the encoders and yield encoder
/// press events, twist reports yield twist events and change no state, and empty reports do
/// nothing.
pub proof fn lemma_input_routing(input: AjazzInput, buttons: Seq<bool>, encoders: Seq<bool>)
    ensures
        input is ButtonStateChange ==> {
            &&& spec_input_events(input, buttons, encoders) == press_events(true, input->ButtonStateChange_0@, buttons, input->ButtonStateChange_0@.len() as int)
            &&& spec_next_buttons(input, buttons) == toggled(buttons, input->ButtonStateChange_0@)
            &&& spec_next_encoders(input, encoders) == encoders
        },
        input is EncoderStateChange ==> {
            &&& spec_input_events(input, buttons, encoders) == press_events(false, input->EncoderStateChange_0@, encoders, input->EncoderStateChange_0@.len() as int)
            &&& spec_next_encoders(input, encoders) == toggled(encoders, input->EncoderStateChange_0@)
            &&& spec_next_buttons(input, buttons) == buttons
        },
        input is EncoderTwist ==> {
            &&& spec_input_events(input, buttons, encoders) == twist_events(input->EncoderTwist_0@, input->EncoderTwist_0@.len() as int)
            &&& spec_next_buttons(input, buttons) == buttons
            &&& spec_next_encoders(input, encoders) == encoders
        },
        input is NoData ==> {
            &&& spec_input_events(input, buttons, encoders).len() == 0
            &&& spec_next_buttons(input, buttons) == buttons
            &&& spec_next_encoders(input, encoders) == encoders
        },
{
}

/// The key or encoder index an event refers to.
pub open spec fn event_index(e: Event) -> int {
    match e {
        Event::ButtonDown(i) => i as int,
        Event::ButtonUp(i) => i as int,
        Event::EncoderDown(i) => i as int,
        Event::EncoderUp(i) => i as int,
        Event::EncoderTwist(i, _) => i as int,
    }
}

/// Twist reports: the events are exactly one twist event per encoder that moved, carrying the
/// encoder's index and its detent count, in index order. There are as many events as non-zero
/// entries, each non-zero entry has its event, and each event comes from a non-zero entry.
pub proof fn lemma_twist_events(twist: Seq<i8>, n: int)
    requires
        0 <= n <= twist.len(),
    ensures
        twist_events(twist, n).len() == twist.take(n).filter(|d: i8| d != 0).len(),
        forall|i: int|
            0 <= i < n && twist[i] != 0 ==> twist_events(twist, n).contains(
                Event::EncoderTwist(i as u8, #[trigger] twist[i]),
            ),
        forall|k: int|
            0 <= k < twist_events(twist, n).len() ==> exists|i: int|
                0 <= i < n && twist[i] != 0 && #[trigger] twist_events(twist, n)[k] == Event::EncoderTwist(
                    i as u8,
                    twist[i],
                ),
        twist.len() <= 256 ==> forall|a: int, b: int|
            0 <= a < b < twist_events(twist, n).len() ==> event_index(#[trigger] twist_events(twist, n)[a])
                < event_index(#[trigger] twist_events(twist, n)[b]),
    decreases n,
{
    let f = |d: i8| d != 0;
    if n > 0 {
        lemma_twist_events(twist, n - 1);
        let earlier = twist_events(twist, n - 1);
        let now = twist_events(twist, n);
        assert(twist.take(n).drop_last() =~= twist.take(n - 1));
        assert(twist.take(n).last() == twist[n - 1]);
        reveal(Seq::filter);
        assert forall|i: int| 0 <= i < n && twist[i] != 0 implies now.contains(
            Event::EncoderTwist(i as u8, #[trigger] twist[i]),
        ) by {
            if i < n - 1 {
                let k = choose|k: int| 0 <= k < earlier.len() && earlier[k] == Event::EncoderTwist(i as u8, twist[i]);
                assert(now[k] == earlier[k]);
            } else {
                assert(now[now.len() - 1] == Event::EncoderTwist(i as u8, twist[i]));
            }
        }
        assert forall|k: int| 0 <= k < now.len() implies exists|i: int|
            0 <= i < n && twist[i] != 0 && #[trigger] now[k] == Event::EncoderTwist(i as u8, twist[i]) by {
            if k < earlier.len() {
                assert(now[k] == earlier[k]);
                let i = choose|i: int| 0 <= i < n - 1 && twist[i] != 0 && earlier[k] == Event::EncoderTwist(i as u8, twist[i]);
                assert(0 <= i < n && twist[i] != 0 && now[k] == Event::EncoderTwist(i as u8, twist[i]));
            } else {
                assert(now[k] == Event::EncoderTwist((n - 1) as u8, twist[n - 1]));
            }
        }
        if twist.len() <= 256 {
            assert forall|k: int| 0 <= k < earlier.len() implies event_index(#[trigger] earlier[k]) < n - 1 by {
                let i = choose|i: int| 0 <= i < n - 1 && twist[i] != 0 && earlier[k] == Event::EncoderTwist(i as u8, twist[i]);
                assert(i as u8 == i);
            }
            assert forall|a: int, b: int| 0 <= a < b < now.len() implies event_index(#[trigger] now[a])
                < event_index(#[trigger] now[b]) by {
                assert(now[a] == earlier[a]);
                if b < earlier.len() {
                    assert(now[b] == earlier[b]);
                } else {
                    assert(now[b] == Event::EncoderTwist((n - 1) as u8, twist[n - 1]));
                    assert(((n - 1) as u8) as int == n - 1);
                }
            }
        }
    } else {
        assert(twist.take(0).filter(f) =~= Seq::<i8>::empty());
    }
}

} // verus!
