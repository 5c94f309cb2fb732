//! Ordering and choosing among the connected devices.
use vstd::prelude::*;
use vstd::string::{StrSliceExecFns, StringExecFns};

use crate::cli::join_words;
use crate::kind::{kind_name, spec_kind_name, Kind};

verus! {

/// Strict lexicographic order on texts, character by character; a proper prefix comes first.
pub open spec fn text_lt(a: Seq<char>, b: Seq<char>) -> bool
    decreases a.len(),
{
    if a.len() == 0 {
        b.len() > 0
    } else if b.len() == 0 {
        false
    } else if a[0] != b[0] {
        a[0] < b[0]
    } else {
        text_lt(a.drop_first(), b.drop_first())
    }
}

/// A device and its serial number, as texts.
pub open spec fn device_view(d: (Kind, String)) -> (Kind, Seq<char>) {
    (d.0, d.1@)
}

/// The views of a list of devices.
pub open spec fn device_views(v: Seq<(Kind, String)>) -> Seq<(Kind, Seq<char>)> {
    v.map_values(|d: (Kind, String)| device_view(d))
}

/// Devices are ordered by serial number, then by model name.
pub open spec fn device_lt(a: (Kind, Seq<char>), b: (Kind, Seq<char>)) -> bool {
    text_lt(a.1, b.1) || (a.1 == b.1 && text_lt(spec_kind_name(a.0), spec_kind_name(b.0)))
}

/// Where `x` goes in `s`: before the first element it precedes.
pub open spec fn insert_pos(s: Seq<(Kind, Seq<char>)>, x: (Kind, Seq<char>)) -> int
    decreases s.len(),
{
    if s.len() == 0 {
        0
    } else if device_lt(x, s[0]) {
        0
    } else {
        1 + insert_pos(s.drop_first(), x)
    }
}

/// The devices sorted by serial number and model name, equal ones keeping their order.
pub open spec fn sort_devices_spec(s: Seq<(Kind, Seq<char>)>) -> Seq<(Kind, Seq<char>)>
    decreases s.len(),
{
    if s.len() == 0 {
        s
    } else {
        let sorted = sort_devices_spec(s.drop_last());
        sorted.insert(insert_pos(sorted, s.last()), s.last())
    }
}

/// Whether `a` comes strictly before `b`.
pub fn text_less(a: &str, b: &str) -> (r: bool)
    ensures
        r == text_lt(a@, b@),
{
    let la = a.unicode_len();
    let lb = b.unicode_len();
    let mut i: usize = 0;
    proof {
        assert(a@.skip(0) =~= a@);
        assert(b@.skip(0) =~= b@);
    }
    while i < la && i < lb
        invariant
            la == a@.len(),
            lb == b@.len(),
            i <= la,
            i <= lb,
            text_lt(a@.skip(i as int), b@.skip(i as int)) == text_lt(a@, b@),
        decreases la - i,
    {
        let ca = a.get_char(i);
        let cb = b.get_char(i);
        proof {
            assert(a@.skip(i as int)[0] == ca);
            assert(b@.skip(i as int)[0] == cb);
            assert(a@.skip(i as int).drop_first() =~= a@.skip(i + 1));
            assert(b@.skip(i as int).drop_first() =~= b@.skip(i + 1));
        }
        if ca != cb {
            return ca < cb;
        }
        i = i + 1;
    }
    proof {
        assert(a@.skip(i as int).len() == la - i);
        assert(b@.skip(i as int).len() == lb - i);
    }
    i == la && i < lb
}

fn device_less(a: &(Kind, String), b: &(Kind, String)) -> (r: bool)
    ensures
        r == device_lt(device_view(*a), device_view(*b)),
{
    if text_less(a.1.as_str(), b.1.as_str()) {
        return true;
    }
    let same = a.1 == b.1;
    same && text_less(kind_name(a.0), kind_name(b.0))
}

/// Sorts devices by serial number, then by model name; equal devices keep their order.
pub fn sort_devices(devices: &Vec<(Kind, String)>) -> (r: Vec<(Kind, String)>)
    ensures
        device_views(r@) == sort_devices_spec(device_views(devices@)),
{
    let ghost input = device_views(devices@);
    let mut sorted: Vec<(Kind, String)> = Vec::new();
    let mut i: usize = 0;
    proof {
        assert(input.take(0) =~= Seq::<(Kind, Seq<char>)>::empty());
        assert(device_views(sorted@) =~= Seq::<(Kind, Seq<char>)>::empty());
    }
    while i < devices.len()
        invariant
            i <= devices@.len(),
            input == device_views(devices@),
            device_views(sorted@) == sort_devices_spec(input.take(i as int)),
        decreases devices@.len() - i,
    {
        let item = (devices[i].0, devices[i].1.clone());
        let ghost x = device_view(item);
        let ghost s = device_views(sorted@);
        proof {
            assert(x == input[i as int]);
        }
        let mut j: usize = 0;
        proof {
            assert(s.skip(0) =~= s);
        }
        while j < sorted.len() && !device_less(&item, &sorted[j])
            invariant
                j <= sorted@.len(),
                s == device_views(sorted@),
                x == device_view(item),
                insert_pos(s, x) == j + insert_pos(s.skip(j as int), x),
            decreases sorted@.len() - j,
        {
            proof {
                assert(s.skip(j as int)[0] == s[j as int]);
                assert(s.skip(j as int).drop_first() =~= s.skip(j + 1));
            }
            j = j + 1;
        }
        proof {
            if j < sorted@.len() {
                assert(s.skip(j as int)[0] == s[j as int]);
            } else {
                assert(s.skip(j as int).len() == 0);
            }
            assert(insert_pos(s, x) == j);
            let t = input.take(i + 1);
            assert(t.drop_last() =~= input.take(i as int));
            assert(t.last() == x);
        }
        sorted.insert(j, item);
        proof {
            assert(device_views(sorted@) =~= s.insert(j as int, x));
        }
        i = i + 1;
    }
    proof {
        assert(input.take(devices@.len() as int) =~= input);
    }
    sorted
}

/// The message when no device is connected.
pub open spec fn no_devices_message() -> Seq<char> {
    "no supported Ajazz devices found"@
}

/// The message when no connected device has the requested serial number.
pub open spec fn serial_not_found_message(serial: Seq<char>) -> Seq<char> {
    "no supported Ajazz device found with serial "@ + serial
}

/// One line of the device listing in the ambiguity message.
pub open spec fn option_line(d: (Kind, Seq<char>)) -> Seq<char> {
    "  "@ + spec_kind_name(d.0) + " "@ + d.1
}

/// The message when several devices are connected and none was chosen.
pub open spec fn ambiguous_message(sorted: Seq<(Kind, Seq<char>)>) -> Seq<char> {
    "multiple Ajazz devices found, pass --serial SERIAL:\n"@ + join_words(
        sorted.map_values(|d: (Kind, Seq<char>)| option_line(d)),
        "\n"@,
    )
}

/// Index of the first device with serial number `serial` at or after `from`, if any.
pub open spec fn first_with_serial(s: Seq<(Kind, Seq<char>)>, serial: Seq<char>, from: int) -> Option<int>
    decreases s.len() - from,
{
    if from >= s.len() || from < 0 {
        None
    } else if s[from].1 == serial {
        Some(from)
    } else {
        first_with_serial(s, serial, from + 1)
    }
}

/// The device to use: the one with the requested serial number (the first in sorted order),
/// or the only one connected; otherwise the message that explains why none was chosen.
pub open spec fn spec_select_device(devices: Seq<(Kind, Seq<char>)>, requested: Option<Seq<char>>) -> Result<(Kind, Seq<char>), Seq<char>> {
    let sorted = sort_devices_spec(devices);
    if sorted.len() == 0 {
        Err(no_devices_message())
    } else if requested is Some {
        match first_with_serial(sorted, requested->0, 0) {
            Some(i) => Ok(sorted[i]),
            None => Err(serial_not_found_message(requested->0)),
        }
    } else if sorted.len() == 1 {
        Ok(sorted[0])
    } else {
        Err(ambiguous_message(sorted))
    }
}

/// Chooses the device to use among the connected ones.
pub fn select_device(devices: &Vec<(Kind, String)>, requested: Option<String>) -> (r: Result<(Kind, String), String>)
    ensures
        spec_select_device(device_views(devices@), crate::cli::opt_view(requested)) matches Ok(d) ==> (r matches Ok(v)
            && device_view(v) == d),
        spec_select_device(device_views(devices@), crate::cli::opt_view(requested)) matches Err(e) ==> (r matches Err(m)
            && m@ == e),
{
    let sorted = sort_devices(devices);
    let ghost s = device_views(sorted@);
    if sorted.len() == 0 {
        return Err(String::from_str("no supported Ajazz devices found"));
    }
    match requested {
        Some(serial) => {
            let mut i: usize = 0;
            while i < sorted.len()
                invariant
                    i <= sorted@.len(),
                    s == device_views(sorted@),
                    s == sort_devices_spec(device_views(devices@)),
                    crate::cli::opt_view(requested) == Some(serial@),
                    first_with_serial(s, serial@, 0) == first_with_serial(s, serial@, i as int),
                decreases sorted@.len() - i,
            {
                if sorted[i].1 == serial {
                    let found = (sorted[i].0, sorted[i].1.clone());
                    proof {
                        assert(s[i as int] == device_view(sorted@[i as int]));
                        assert(s[i as int].1 == serial@);
                        assert(first_with_serial(s, serial@, i as int) == Some(i as int));
                        assert(device_view(found) == s[i as int]);
                    }
                    return Ok(found);
                }
                proof {
                    assert(s[i as int].1 != serial@);
                }
                i = i + 1;
            }
            let mut m = String::from_str("no supported Ajazz device found with serial ");
            m.append(serial.as_str());
            Err(m)
        },
        None => {
            if sorted.len() == 1 {
                return Ok((sorted[0].0, sorted[0].1.clone()));
            }
            let ghost lines = s.map_values(|d: (Kind, Seq<char>)| option_line(d));
            let ghost head = "multiple Ajazz devices found, pass --serial SERIAL:\n"@;
            let mut m = String::from_str("multiple Ajazz devices found, pass --serial SERIAL:\n");
            let mut i: usize = 0;
            proof {
                assert(lines.take(0) =~= Seq::<Seq<char>>::empty());
            }
            while i < sorted.len()
                invariant
                    i <= sorted@.len(),
                    s == device_views(sorted@),
                    s == sort_devices_spec(device_views(devices@)),
                    lines == s.map_values(|d: (Kind, Seq<char>)| option_line(d)),
                    head == "multiple Ajazz devices found, pass --serial SERIAL:\n"@,
                    m@ == head + join_words(lines.take(i as int), "\n"@),
                decreases sorted@.len() - i,
            {
                if i > 0 {
                    m.append("\n");
                }
                m.append("  ");
                m.append(kind_name(sorted[i].0));
                m.append(" ");
                m.append(sorted[i].1.as_str());
                proof {
                    let t = lines.take(i + 1);
                    assert(t.drop_last() =~= lines.take(i as int));
                    assert(t.last() == option_line(s[i as int]));
                    if i == 0 {
                        assert(lines.take(0).len() == 0);
                        assert(join_words(t, "\n"@) == t[0]);
                    }
                    assert(m@ =~= head + join_words(t, "\n"@));
                }
                i = i + 1;
            }
            proof {
                assert(lines.take(sorted@.len() as int) =~= lines);
            }
            Err(m)
        },
    }
}

/// No text comes before itself.
pub proof fn lemma_text_lt_irreflexive(a: Seq<char>)
    ensures
        !text_lt(a, a),
    decreases a.len(),
{
    if a.len() > 0 {
        lemma_text_lt_irreflexive(a.drop_first());
    }
}

/// Of two texts, at most one comes before the other.
pub proof fn lemma_text_lt_asymmetric(a: Seq<char>, b: Seq<char>)
    ensures
        !(text_lt(a, b) && text_lt(b, a)),
    decreases a.len(),
{
    if a.len() > 0 && b.len() > 0 && a[0] == b[0] {
        lemma_text_lt_asymmetric(a.drop_first(), b.drop_first());
    }
}

/// The text order is transitive.
pub proof fn lemma_text_lt_transitive(a: Seq<char>, b: Seq<char>, c: Seq<char>)
    requires
        text_lt(a, b),
        text_lt(b, c),
    ensures
        text_lt(a, c),
    decreases a.len(),
{
    if a.len() > 0 && b.len() > 0 && c.len() > 0 && a[0] == b[0] && b[0] == c[0] {
        lemma_text_lt_transitive(a.drop_first(), b.drop_first(), c.drop_first());
    }
}

/// The device order is a strict order.
pub proof fn lemma_device_lt_order(a: (Kind, Seq<char>), b: (Kind, Seq<char>), c: (Kind, Seq<char>))
    ensures
        !device_lt(a, a),
        !(device_lt(a, b) && device_lt(b, a)),
        device_lt(a, b) && device_lt(b, c) ==> device_lt(a, c),
{
    lemma_text_lt_irreflexive(a.1);
    lemma_text_lt_irreflexive(spec_kind_name(a.0));
    lemma_text_lt_asymmetric(a.1, b.1);
    lemma_text_lt_asymmetric(spec_kind_name(a.0), spec_kind_name(b.0));
    if device_lt(a, b) && device_lt(b, c) {
        if text_lt(a.1, b.1) && text_lt(b.1, c.1) {
            lemma_text_lt_transitive(a.1, b.1, c.1);
        }
        if a.1 == b.1 && b.1 == c.1 && text_lt(spec_kind_name(a.0), spec_kind_name(b.0)) && text_lt(
            spec_kind_name(b.0),
            spec_kind_name(c.0),
        ) {
            lemma_text_lt_transitive(spec_kind_name(a.0), spec_kind_name(b.0), spec_kind_name(c.0));
        }
    }
}

/// The insertion position: everything before it stays before `x`, and `x` comes before the
/// element at it.
proof fn lemma_insert_pos(s: Seq<(Kind, Seq<char>)>, x: (Kind, Seq<char>))
    ensures
        0 <= insert_pos(s, x) <= s.len(),
        forall|k: int| 0 <= k < insert_pos(s, x) ==> !device_lt(x, #[trigger] s[k]),
        insert_pos(s, x) < s.len() ==> device_lt(x, s[insert_pos(s, x)]),
    decreases s.len(),
{
    if s.len() > 0 && !device_lt(x, s[0]) {
        lemma_insert_pos(s.drop_first(), x);
        assert forall|k: int| 0 <= k < insert_pos(s, x) implies !device_lt(x, #[trigger] s[k]) by {
            if k > 0 {
                assert(s[k] == s.drop_first()[k - 1]);
            }
        }
    }
}

/// Sorted: no device comes after one that it precedes.
pub open spec fn devices_sorted(s: Seq<(Kind, Seq<char>)>) -> bool {
    forall|i: int, j: int| 0 <= i < j < s.len() ==> !device_lt(#[trigger] s[j], #[trigger] s[i])
}

/// Sorting yields the same devices, each as often as before, in device order.
pub proof fn lemma_sort_devices(s: Seq<(Kind, Seq<char>)>)
    ensures
        devices_sorted(sort_devices_spec(s)),
        sort_devices_spec(s).to_multiset() == s.to_multiset(),
    decreases s.len(),
{
    broadcast use vstd::seq_lib::group_to_multiset_ensures;

    if s.len() > 0 {
        let prev = sort_devices_spec(s.drop_last());
        lemma_sort_devices(s.drop_last());
        let x = s.last();
        let p = insert_pos(prev, x);
        lemma_insert_pos(prev, x);
        let r = prev.insert(p, x);
        assert(r == sort_devices_spec(s));
        assert forall|i: int, j: int| 0 <= i < j < r.len() implies !device_lt(#[trigger] r[j], #[trigger] r[i]) by {
            if j < p {
                assert(r[i] == prev[i] && r[j] == prev[j]);
            } else if j == p {
                assert(r[j] == x && r[i] == prev[i]);
            } else if i == p {
                assert(r[i] == x && r[j] == prev[j - 1]);
                lemma_device_lt_order(prev[j - 1], x, prev[p]);
                if j - 1 > p {
                    assert(!device_lt(prev[j - 1], prev[p]));
                }
            } else if i < p {
                assert(r[i] == prev[i] && r[j] == prev[j - 1]);
            } else {
                assert(r[i] == prev[i - 1] && r[j] == prev[j - 1]);
            }
        }
        vstd::seq_lib::to_multiset_insert(prev, p, x);
        assert(s =~= s.drop_last().push(x));
        vstd::seq_lib::to_multiset_build(s.drop_last(), x);
    }
}

/// What the serial search finds: the position of a device with that serial number, at or
/// after `from`; or nothing, when no device from `from` on has it.
proof fn lemma_first_with_serial(s: Seq<(Kind, Seq<char>)>, serial: Seq<char>, from: int)
    requires
        0 <= from,
    ensures
        first_with_serial(s, serial, from) matches Some(i) ==> from <= i < s.len() && s[i].1 == serial,
        first_with_serial(s, serial, from) is None ==> forall|j: int| from <= j < s.len() ==> #[trigger] s[j].1 != serial,
    decreases s.len() - from,
{
    if from < s.len() && s[from].1 != serial {
        lemma_first_with_serial(s, serial, from + 1);
    }
}

/// Choosing a device: with a requested serial number, the chosen device is a connected one with
/// exactly that serial number; one is chosen whenever such a device is connected, and otherwise
/// the not-found message names the serial, however many devices are connected. Without a
/// request, a device is chosen exactly when one alone is connected, and it is that one.
pub proof fn lemma_select_device(devs: Seq<(Kind, Seq<char>)>, requested: Option<Seq<char>>)
    ensures
        devs.len() == 0 ==> spec_select_device(devs, requested) == Err::<(Kind, Seq<char>), Seq<char>>(no_devices_message()),
        requested matches Some(s) ==> (spec_select_device(devs, requested) matches Ok(d) ==> d.1 == s && devs.contains(d)),
        requested matches Some(s) ==> ((exists|i: int| 0 <= i < devs.len() && #[trigger] devs[i].1 == s)
            <==> spec_select_device(devs, requested) is Ok),
        requested matches Some(s) ==> (devs.len() > 0 && (forall|i: int| 0 <= i < devs.len() ==> #[trigger] devs[i].1 != s)
            ==> spec_select_device(devs, requested) == Err::<(Kind, Seq<char>), Seq<char>>(serial_not_found_message(s))),
        requested is None && devs.len() == 1 ==> spec_select_device(devs, requested) == Ok::<(Kind, Seq<char>), Seq<char>>(devs[0]),
        requested is None && devs.len() != 1 ==> spec_select_device(devs, requested) is Err,
{
    broadcast use vstd::seq_lib::group_to_multiset_ensures;

    let sorted = sort_devices_spec(devs);
    lemma_sort_devices(devs);
    assert(sorted.len() == devs.len()) by {
        vstd::seq_lib::to_multiset_len(sorted);
        vstd::seq_lib::to_multiset_len(devs);
    }
    if requested is Some {
        let s = requested->0;
        lemma_first_with_serial(sorted, s, 0);
        match first_with_serial(sorted, s, 0) {
            Some(i) => {
                vstd::seq_lib::to_multiset_contains(sorted, sorted[i]);
                vstd::seq_lib::to_multiset_contains(devs, sorted[i]);
                assert(sorted.contains(sorted[i]));
                assert(devs.contains(sorted[i]));
                let k = choose|k: int| 0 <= k < devs.len() && devs[k] == sorted[i];
                assert(devs[k].1 == s);
            },
            None => {
                assert forall|i: int| 0 <= i < devs.len() implies #[trigger] devs[i].1 != s by {
                    vstd::seq_lib::to_multiset_contains(devs, devs[i]);
                    vstd::seq_lib::to_multiset_contains(sorted, devs[i]);
                    assert(devs.contains(devs[i]));
                    let k = choose|k: int| 0 <= k < sorted.len() && sorted[k] == devs[i];
                    assert(sorted[k].1 != s);
                }
            },
        }
    } else if devs.len() == 1 {
        assert(devs.drop_last().len() == 0);
        assert(sort_devices_spec(devs.drop_last()) =~= Seq::<(Kind, Seq<char>)>::empty());
        assert(sorted =~= seq![devs[0]]);
    }
}

} // verus!
