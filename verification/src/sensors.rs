//! The choice of the thermal sensor that reports the CPU temperature.

use vstd::prelude::*;
use vstd::string::*;

verus! {

/// What `str::to_lowercase` returns for a text: its Unicode lowercase mapping.
pub uninterp spec fn lowercase_of(text: Seq<char>) -> Seq<char>;

/// Calls `str::to_lowercase`. The contract claims only that the result is a
/// function of the text's characters (the Unicode lowercase mapping, which is
/// not spelled out here).
#[verifier::external_body]
fn to_lowercase(text: &str) -> (lowered: String)
    ensures
        lowered@ == lowercase_of(text@),
{
    text.to_lowercase()
}

/// `needle` occurs in `hay` as a contiguous run of characters.
pub open spec fn occurs_in(hay: Seq<char>, needle: Seq<char>) -> bool {
    exists|i: int|
        0 <= i <= hay.len() - needle.len() && #[trigger] hay.subrange(i, i + needle.len()) == needle
}

/// A lowercased sensor label names the CPU package or one of its cores.
pub open spec fn names_cpu(lowered: Seq<char>) -> bool {
    occurs_in(lowered, "cpu"@) || occurs_in(lowered, "core"@) || occurs_in(lowered, "package"@)
}

/// `choice` is the sensor to read among sensors with the lowercased labels
/// `lowered`: the first whose label names the CPU, else the first sensor,
/// else none.
pub open spec fn is_sensor_choice(lowered: Seq<Seq<char>>, choice: Option<usize>) -> bool {
    match choice {
        Some(i) => {
            &&& i < lowered.len()
            &&& forall|j: int| 0 <= j < i ==> !names_cpu(#[trigger] lowered[j])
            &&& (names_cpu(lowered[i as int]) || (i == 0 && forall|j: int|
                0 <= j < lowered.len() ==> !names_cpu(#[trigger] lowered[j])))
        },
        None => lowered.len() == 0,
    }
}

/// The lowercased labels of the sensors.
pub open spec fn lowered_labels(labels: Seq<String>) -> Seq<Seq<char>> {
    Seq::new(labels.len(), |i: int| lowercase_of(labels[i]@))
}

/// The characters of a text, in order.
pub fn chars_of(text: &str) -> (chars: Vec<char>)
    ensures
        chars@ == text@,
{
    let n = text.unicode_len();
    let mut chars: Vec<char> = Vec::with_capacity(n);
    let mut i: usize = 0;
    while i < n
        invariant
            n == text@.len(),
            i <= n,
            chars@ == text@.take(i as int),
        decreases n - i,
    {
        chars.push(text.get_char(i));
        i = i + 1;
        assert(chars@ =~= text@.take(i as int));
    }
    assert(text@.take(n as int) =~= text@);
    chars
}

fn matches_at(hay: &Vec<char>, needle: &Vec<char>, at: usize) -> (found: bool)
    requires
        at + needle@.len() <= hay@.len(),
    ensures
        found == (hay@.subrange(at as int, at + needle@.len()) == needle@),
{
    let hay_len = hay.len();
    let mut k: usize = 0;
    while k < needle.len()
        invariant
            hay_len == hay@.len(),
            at + needle@.len() <= hay@.len(),
            k <= needle@.len(),
            forall|m: int| 0 <= m < k ==> hay@[at + m] == needle@[m],
        decreases needle@.len() - k,
    {
        if hay[at + k] != needle[k] {
            assert(hay@.subrange(at as int, at + needle@.len())[k as int] != needle@[k as int]);
            return false;
        }
        k = k + 1;
    }
    assert(hay@.subrange(at as int, at + needle@.len()) =~= needle@);
    true
}

/// Whether `needle` occurs in `hay`, as `str::contains` with a string pattern.
pub fn text_contains(hay: &str, needle: &str) -> (found: bool)
    ensures
        found == occurs_in(hay@, needle@),
{
    let h = chars_of(hay);
    let n = chars_of(needle);
    if n.len() > h.len() {
        return false;
    }
    if n.len() == 0 {
        assert(hay@.subrange(0int, 0int + needle@.len()) =~= needle@);
        return true;
    }
    let hl = h.len();
    let last = hl - n.len();
    let mut at: usize = 0;
    while at <= last
        invariant
            hl == h@.len(),
            h@ == hay@,
            n@ == needle@,
            last == h@.len() - n@.len(),
            n@.len() > 0,
            at <= last + 1,
            forall|i: int| 0 <= i < at ==> #[trigger] h@.subrange(i, i + n@.len()) != n@,
        decreases last + 1 - at,
    {
        if matches_at(&h, &n, at) {
            return true;
        }
        at = at + 1;
    }
    false
}

fn label_names_cpu(lowered: &str) -> (found: bool)
    ensures
        found == names_cpu(lowered@),
{
    text_contains(lowered, "cpu") || text_contains(lowered, "core") || text_contains(
        lowered,
        "package",
    )
}

/// The sensor to read among sensors whose labels are already lowercased.
pub fn choose_lowered_sensor(lowered: &Vec<String>) -> (choice: Option<usize>)
    ensures
        is_sensor_choice(lowered@.map_values(|s: String| s@), choice),
{
    let ghost views = lowered@.map_values(|s: String| s@);
    let mut i: usize = 0;
    while i < lowered.len()
        invariant
            views == lowered@.map_values(|s: String| s@),
            i <= lowered@.len(),
            forall|j: int| 0 <= j < i ==> !names_cpu(#[trigger] views[j]),
        decreases lowered@.len() - i,
    {
        if label_names_cpu(lowered[i].as_str()) {
            return Some(i);
        }
        i = i + 1;
    }
    if lowered.len() > 0 {
        Some(0)
    } else {
        None
    }
}

/// The sensor that reports the CPU temperature: the first whose label,
/// lowercased, contains `cpu`, `core` or `package`; else the first sensor;
/// none where there is no sensor.
pub fn choose_cpu_sensor(labels: &Vec<String>) -> (choice: Option<usize>)
    ensures
        is_sensor_choice(lowered_labels(labels@), choice),
{
    let mut lowered: Vec<String> = Vec::with_capacity(labels.len());
    let mut i: usize = 0;
    while i < labels.len()
        invariant
            i <= labels@.len(),
            lowered@.len() == i,
            forall|j: int| 0 <= j < i ==> (#[trigger] lowered@[j])@ == lowercase_of(labels@[j]@),
        decreases labels@.len() - i,
    {
        lowered.push(to_lowercase(labels[i].as_str()));
        i = i + 1;
    }
    let choice = choose_lowered_sensor(&lowered);
    assert(lowered@.map_values(|s: String| s@) =~= lowered_labels(labels@));
    choice
}

/// Every sensor's label is looked at lowercased: the labels examined are, one
/// for one and in order, `str::to_lowercase` of the labels given.
pub proof fn lemma_every_label_is_lowercased(labels: Seq<String>)
    ensures
        lowered_labels(labels).len() == labels.len(),
        forall|i: int| 0 <= i < labels.len() ==> #[trigger] lowered_labels(labels)[i] == lowercase_of(labels[i]@),
{
}

/// A lowercased label names the CPU when it contains `cpu`, `core` or `package`.
pub open spec fn mentions_cpu(lowered: Seq<char>) -> bool {
    occurs_in(lowered, "cpu"@) || occurs_in(lowered, "core"@) || occurs_in(lowered, "package"@)
}

/// A sensor whose lowercased label contains `cpu`, `core` or `package` is
/// never passed over: the chosen sensor comes no later and its lowercased
/// label contains one of them too, and no earlier sensor's does.
pub proof fn lemma_cpu_sensor_is_found(labels: Seq<String>, choice: Option<usize>, i: int)
    requires
        is_sensor_choice(lowered_labels(labels), choice),
        0 <= i < labels.len(),
        mentions_cpu(lowercase_of(labels[i]@)),
    ensures
        choice matches Some(k) && k <= i && mentions_cpu(lowercase_of(labels[k as int]@))
            && forall|j: int| 0 <= j < k ==> !mentions_cpu(lowercase_of(#[trigger] labels[j]@)),
{
    let lowered = lowered_labels(labels);
    assert(lowered[i] == lowercase_of(labels[i]@));
    let k = choice->0;
    if k > i {
        assert(!names_cpu(lowered[i]));
    }
    if !names_cpu(lowered[k as int]) {
        assert(!names_cpu(lowered[i]));
    }
    assert(lowered[k as int] == lowercase_of(labels[k as int]@));
    assert forall|j: int| 0 <= j < k implies !mentions_cpu(lowercase_of(#[trigger] labels[j]@)) by {
        assert(lowered[j] == lowercase_of(labels[j]@));
        assert(!names_cpu(lowered[j]));
    }
}

/// Where no lowercased label contains `cpu`, `core` or `package`, the first
/// sensor is chosen, and none only where there is no sensor.
pub proof fn lemma_first_sensor_is_the_fallback(labels: Seq<String>, choice: Option<usize>)
    requires
        is_sensor_choice(lowered_labels(labels), choice),
        forall|i: int| 0 <= i < labels.len() ==> !mentions_cpu(lowercase_of(#[trigger] labels[i]@)),
    ensures
        labels.len() > 0 ==> choice == Some(0usize),
        labels.len() == 0 ==> choice.is_none(),
{
    let lowered = lowered_labels(labels);
    if let Some(k) = choice {
        assert(lowered[k as int] == lowercase_of(labels[k as int]@));
        assert(!names_cpu(lowered[k as int]));
    }
}

/// A text contains itself, and a text contained in either part of a
/// concatenation is contained in the whole.
pub proof fn lemma_occurs_in_parts(a: Seq<char>, b: Seq<char>, needle: Seq<char>)
    ensures
        occurs_in(needle, needle),
        occurs_in(a, needle) ==> occurs_in(a + b, needle),
        occurs_in(b, needle) ==> occurs_in(a + b, needle),
{
    assert(needle.subrange(0int, 0int + needle.len()) =~= needle);
    if occurs_in(a, needle) {
        let i = choose|i: int|
            0 <= i <= a.len() - needle.len() && #[trigger] a.subrange(i, i + needle.len()) == needle;
        assert((a + b).subrange(i, i + needle.len()) =~= a.subrange(i, i + needle.len()));
    }
    if occurs_in(b, needle) {
        let i = choose|i: int|
            0 <= i <= b.len() - needle.len() && #[trigger] b.subrange(i, i + needle.len()) == needle;
        assert((a + b).subrange(a.len() + i, a.len() + i + needle.len()) =~= b.subrange(
            i,
            i + needle.len(),
        ));
    }
}

/// A text contained in a part of another text is contained in that text.
pub proof fn lemma_occurs_in_transitive(text: Seq<char>, part: Seq<char>, needle: Seq<char>)
    requires
        occurs_in(text, part),
        occurs_in(part, needle),
    ensures
        occurs_in(text, needle),
{
    let i = choose|i: int| 0 <= i <= text.len() - part.len() && #[trigger] text.subrange(i, i + part.len()) == part;
    let j = choose|j: int|
        0 <= j <= part.len() - needle.len() && #[trigger] part.subrange(j, j + needle.len()) == needle;
    assert(text.subrange(i + j, i + j + needle.len()) =~= part.subrange(j, j + needle.len()));
}

} // verus!
