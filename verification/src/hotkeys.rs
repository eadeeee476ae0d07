//! The keys that the control panel offers for moving the focus.

use crate::digest::hex_value;
use crate::keymap::{key_for, Key};
use crate::text::{owned, same_text};
use vstd::prelude::*;

verus! {

/// The keys on offer: what the user sees, and the HID usage.
pub open spec fn hotkey_keys() -> Seq<(Seq<char>, u16)> {
    seq![
        ("RightArrow"@, 0x4Fu16),
        ("LeftArrow"@, 0x50u16),
        ("DownArrow"@, 0x51u16),
        ("UpArrow"@, 0x52u16),
        ("F1"@, 0x3Au16),
        ("F2"@, 0x3Bu16),
        ("F3"@, 0x3Cu16),
        ("F4"@, 0x3Du16),
        ("F5"@, 0x3Eu16),
        ("F6"@, 0x3Fu16),
        ("F7"@, 0x40u16),
        ("F8"@, 0x41u16),
        ("F9"@, 0x42u16),
        ("F10"@, 0x43u16),
        ("F11"@, 0x44u16),
        ("F12"@, 0x45u16),
        ("Tab"@, 0x2Bu16),
        ("Space"@, 0x2Cu16),
    ]
}

/// The first key, from place `i` on, with this usage.
pub open spec fn label_from(hid: u16, i: int) -> Option<Seq<char>>
    decreases hotkey_keys().len() - i,
{
    if i < 0 || i >= hotkey_keys().len() {
        None
    } else if hotkey_keys()[i].1 == hid {
        Some(hotkey_keys()[i].0)
    } else {
        label_from(hid, i + 1)
    }
}

/// The first key, from place `i` on, that the user sees under this name.
pub open spec fn usage_from(label: Seq<char>, i: int) -> Option<u16>
    decreases hotkey_keys().len() - i,
{
    if i < 0 || i >= hotkey_keys().len() {
        None
    } else if hotkey_keys()[i].0 == label {
        Some(hotkey_keys()[i].1)
    } else {
        usage_from(label, i + 1)
    }
}

/// The upper-case hexadecimal digit for `d`, which is below 16.
pub open spec fn upper_digit(d: nat) -> char {
    if d < 10 {
        (('0' as nat) + d) as char
    } else {
        (('A' as nat) + (d - 10)) as char
    }
}

/// A usage in four hexadecimal digits.
pub open spec fn hex4(n: u16) -> Seq<char> {
    seq![
        '0',
        'x',
        upper_digit(n as nat / 4096),
        upper_digit(n as nat / 256 % 16),
        upper_digit(n as nat / 16 % 16),
        upper_digit(n as nat % 16),
    ]
}

/// What the user sees for a usage.
pub open spec fn label_of(hid: u16) -> Seq<char> {
    match label_from(hid, 0) {
        Some(l) => l,
        None => hex4(hid),
    }
}

/// The usage that a name stands for. An unknown name stands for the right arrow.
pub open spec fn usage_of(label: Seq<char>) -> u16 {
    match usage_from(label, 0) {
        Some(h) => h,
        None => 0x4F,
    }
}

/// The names on offer, with their usages.
pub fn hotkey_list() -> (r: Vec<(&'static str, u16)>)
    ensures
        r@.map_values(|e: (&'static str, u16)| (e.0@, e.1)) == hotkey_keys(),
{
    let mut v: Vec<(&'static str, u16)> = Vec::new();
    v.push(("RightArrow", 0x4F));
    v.push(("LeftArrow", 0x50));
    v.push(("DownArrow", 0x51));
    v.push(("UpArrow", 0x52));
    v.push(("F1", 0x3A));
    v.push(("F2", 0x3B));
    v.push(("F3", 0x3C));
    v.push(("F4", 0x3D));
    v.push(("F5", 0x3E));
    v.push(("F6", 0x3F));
    v.push(("F7", 0x40));
    v.push(("F8", 0x41));
    v.push(("F9", 0x42));
    v.push(("F10", 0x43));
    v.push(("F11", 0x44));
    v.push(("F12", 0x45));
    v.push(("Tab", 0x2B));
    v.push(("Space", 0x2C));
    assert(v@.map_values(|e: (&'static str, u16)| (e.0@, e.1)) =~= hotkey_keys());
    v
}

/// One upper-case hexadecimal digit.
fn digit(d: u16) -> (r: &'static str)
    requires
        d < 16,
    ensures
        r@ == seq![upper_digit(d as nat)],
{
    proof {
        reveal_strlit("0");
        reveal_strlit("1");
        reveal_strlit("2");
        reveal_strlit("3");
        reveal_strlit("4");
        reveal_strlit("5");
        reveal_strlit("6");
        reveal_strlit("7");
        reveal_strlit("8");
        reveal_strlit("9");
        reveal_strlit("A");
        reveal_strlit("B");
        reveal_strlit("C");
        reveal_strlit("D");
        reveal_strlit("E");
        reveal_strlit("F");
    }
    let r = match d {
        0 => "0",
        1 => "1",
        2 => "2",
        3 => "3",
        4 => "4",
        5 => "5",
        6 => "6",
        7 => "7",
        8 => "8",
        9 => "9",
        10 => "A",
        11 => "B",
        12 => "C",
        13 => "D",
        14 => "E",
        _ => "F",
    };
    assert(r@ =~= seq![upper_digit(d as nat)]);
    r
}

/// What the user sees for a usage.
pub fn key_label_for(hid: u16) -> (r: String)
    ensures
        r@ == label_of(hid),
{
    let keys = hotkey_list();
    let n: usize = keys.len();
    let mut i: usize = 0;
    let ghost all = keys@.map_values(|e: (&'static str, u16)| (e.0@, e.1));
    while i < n
        invariant
            i <= n,
            n == keys@.len(),
            all == keys@.map_values(|e: (&'static str, u16)| (e.0@, e.1)),
            all == hotkey_keys(),
            label_from(hid, 0) == label_from(hid, i as int),
        decreases n - i,
    {
        assert(all[i as int] == (keys@[i as int].0@, keys@[i as int].1));
        if keys[i].1 == hid {
            return owned(keys[i].0);
        }
        i = i + 1;
    }
    let mut r = owned("0x");
    r.append(digit(hid / 4096));
    r.append(digit(hid / 256 % 16));
    r.append(digit(hid / 16 % 16));
    r.append(digit(hid % 16));
    proof {
        reveal_strlit("0x");
        assert(r@ =~= hex4(hid));
    }
    r
}

/// The usage that a name stands for.
pub fn hid_for(label: &str) -> (r: u16)
    ensures
        r == usage_of(label@),
{
    let keys = hotkey_list();
    let n: usize = keys.len();
    let mut i: usize = 0;
    let ghost all = keys@.map_values(|e: (&'static str, u16)| (e.0@, e.1));
    while i < n
        invariant
            i <= n,
            n == keys@.len(),
            all == keys@.map_values(|e: (&'static str, u16)| (e.0@, e.1)),
            all == hotkey_keys(),
            usage_from(label@, 0) == usage_from(label@, i as int),
        decreases n - i,
    {
        assert(all[i as int] == (keys@[i as int].0@, keys@[i as int].1));
        if same_text(keys[i].0, label) {
            return keys[i].1;
        }
        i = i + 1;
    }
    0x4F
}

/// The names on offer differ.
#[verifier::rlimit(40)]
proof fn lemma_names_differ(i: int, j: int)
    requires
        0 <= i < j < hotkey_keys().len(),
    ensures
        hotkey_keys()[i].0 != hotkey_keys()[j].0,
{
    reveal_strlit("RightArrow");
    reveal_strlit("LeftArrow");
    reveal_strlit("DownArrow");
    reveal_strlit("UpArrow");
    reveal_strlit("F1");
    reveal_strlit("F2");
    reveal_strlit("F3");
    reveal_strlit("F4");
    reveal_strlit("F5");
    reveal_strlit("F6");
    reveal_strlit("F7");
    reveal_strlit("F8");
    reveal_strlit("F9");
    reveal_strlit("F10");
    reveal_strlit("F11");
    reveal_strlit("F12");
    reveal_strlit("Tab");
    reveal_strlit("Space");
    let a = hotkey_keys()[i].0;
    let b = hotkey_keys()[j].0;
    if a == b {
        assert(a.len() == b.len());
        assert(a[0] == b[0]);
        assert(a.last() == b.last());
    }
}

/// A name is found at its own place.
proof fn lemma_usage_from(i: int, k: int)
    requires
        0 <= i <= k < hotkey_keys().len(),
    ensures
        usage_from(hotkey_keys()[k].0, i) == Some(hotkey_keys()[k].1),
    decreases k - i,
{
    if i < k {
        lemma_names_differ(i, k);
        lemma_usage_from(i + 1, k);
    }
}

/// A usage on offer is found.
proof fn lemma_label_from(hid: u16, i: int)
    requires
        0 <= i <= hotkey_keys().len(),
    ensures
        match label_from(hid, i) {
            Some(l) => exists|k: int|
                i <= k < hotkey_keys().len() && (#[trigger] hotkey_keys()[k]) == (l, hid),
            None => forall|k: int|
                i <= k < hotkey_keys().len() ==> (#[trigger] hotkey_keys()[k]).1 != hid,
        },
    decreases hotkey_keys().len() - i,
{
    if i < hotkey_keys().len() {
        if hotkey_keys()[i].1 == hid {
            assert(hotkey_keys()[i] == (hotkey_keys()[i].0, hid));
        } else {
            lemma_label_from(hid, i + 1);
        }
    }
}

/// A key on offer is found again under the name that the user sees.
pub proof fn offered_keys_round_trip(hid: u16)
    requires
        exists|k: int| 0 <= k < hotkey_keys().len() && (#[trigger] hotkey_keys()[k]).1 == hid,
    ensures
        usage_of(label_of(hid)) == hid,
{
    lemma_label_from(hid, 0);
    let l = label_from(hid, 0)->Some_0;
    let k = choose|k: int| 0 <= k < hotkey_keys().len() && (#[trigger] hotkey_keys()[k]) == (l, hid);
    lemma_usage_from(0, k);
}

/// A name on offer stands for the key of that name, and any other name for the right arrow.
pub proof fn names_stand_for_their_keys(i: int, shift: bool, other: Seq<char>)
    requires
        0 <= i < 18,
        forall|k: int| 0 <= k < hotkey_keys().len() ==> (#[trigger] hotkey_keys()[k]).0 != other,
    ensures
        hotkey_keys().len() == 18,
        ({
            let names = seq![
                "RightArrow"@,
                "LeftArrow"@,
                "DownArrow"@,
                "UpArrow"@,
                "F1"@,
                "F2"@,
                "F3"@,
                "F4"@,
                "F5"@,
                "F6"@,
                "F7"@,
                "F8"@,
                "F9"@,
                "F10"@,
                "F11"@,
                "F12"@,
                "Tab"@,
                "Space"@,
            ];
            let keys = seq![
                Key::RightArrow,
                Key::LeftArrow,
                Key::DownArrow,
                Key::UpArrow,
                Key::F1,
                Key::F2,
                Key::F3,
                Key::F4,
                Key::F5,
                Key::F6,
                Key::F7,
                Key::F8,
                Key::F9,
                Key::F10,
                Key::F11,
                Key::F12,
                Key::Tab,
                Key::Space,
            ];
            &&& key_for(usage_of(names[i]), shift) == Some(keys[i])
            &&& label_of(usage_of(names[i])) == names[i]
        }),
        key_for(usage_of(other), shift) == Some(Key::RightArrow),
{
    lemma_usage_from(0, i);
    let hid = hotkey_keys()[i].1;
    lemma_label_from(hid, 0);
    assert(hotkey_keys()[i].1 == hid);
    let l = label_from(hid, 0)->Some_0;
    let k = choose|k: int| 0 <= k < hotkey_keys().len() && (#[trigger] hotkey_keys()[k]) == (l, hid);
    assert(k == i);
    lemma_unknown(other, 0);
}

/// A name that is not on offer is not found.
proof fn lemma_unknown(label: Seq<char>, i: int)
    requires
        0 <= i <= hotkey_keys().len(),
        forall|k: int| 0 <= k < hotkey_keys().len() ==> (#[trigger] hotkey_keys()[k]).0 != label,
    ensures
        usage_from(label, i) is None,
    decreases hotkey_keys().len() - i,
{
    if i < hotkey_keys().len() {
        lemma_unknown(label, i + 1);
    }
}

/// A usage that is not on offer is shown as a hexadecimal number of four digits, which spell it.
pub proof fn other_usages_are_spelled(hid: u16)
    requires
        forall|k: int| 0 <= k < hotkey_keys().len() ==> (#[trigger] hotkey_keys()[k]).1 != hid,
    ensures
        ({
            let t = label_of(hid);
            &&& t.len() == 6
            &&& t[0] == '0' && t[1] == 'x'
            &&& hex_value(t[2]) is Some && hex_value(t[3]) is Some && hex_value(t[4]) is Some
                && hex_value(t[5]) is Some
            &&& 0x1000 * hex_value(t[2])->Some_0 + 0x100 * hex_value(t[3])->Some_0 + 0x10
                * hex_value(t[4])->Some_0 + hex_value(t[5])->Some_0 == hid
        }),
{
    lemma_label_from(hid, 0);
    assert(label_of(hid) == hex4(hid));
    let n = hid as nat;
    lemma_upper_digit(n / 4096);
    lemma_upper_digit(n / 256 % 16);
    lemma_upper_digit(n / 16 % 16);
    lemma_upper_digit(n % 16);
    assert(0x1000 * (n / 4096) + 0x100 * (n / 256 % 16) + 0x10 * (n / 16 % 16) + n % 16 == n);
}

/// A digit stands for its number.
proof fn lemma_upper_digit(d: nat)
    requires
        d < 16,
    ensures
        hex_value(upper_digit(d)) == Some(d),
{
}

} // verus!
