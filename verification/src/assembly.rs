use vstd::prelude::*;
use vstd::string::StringExecFns;

verus! {

/// The texts of a sequence of strings.
pub open spec fn texts(lines: Seq<String>) -> Seq<Seq<char>> {
    Seq::new(lines.len(), |i: int| lines[i]@)
}

/// Whether `needle` stands in `text` from index `at` on.
pub open spec fn occurs_at(text: Seq<char>, needle: Seq<char>, at: int) -> bool {
    0 <= at && at + needle.len() <= text.len() && text.subrange(at, at + needle.len()) == needle
}

/// Whether `needle` stands somewhere in `text`.
pub open spec fn occurs(text: Seq<char>, needle: Seq<char>) -> bool {
    exists|at: int| occurs_at(text, needle, at)
}

/// The lines one after the other, with a line feed between each two.
pub open spec fn joined(lines: Seq<Seq<char>>) -> Seq<char>
    decreases lines.len(),
{
    if lines.len() == 0 {
        Seq::empty()
    } else if lines.len() == 1 {
        lines[0]
    } else {
        joined(lines.drop_last()) + "\n"@ + lines.last()
    }
}

/// What is put before a text that lacks `marker`: the marker on a line of
/// its own.
pub open spec fn missing(text: Seq<char>, marker: Seq<char>) -> Seq<char> {
    if occurs(text, marker) {
        Seq::empty()
    } else {
        marker + "\n"@
    }
}

/// `text` behind the markers of the code section and of the data section,
/// in this order, each only where `text` does not hold it.
pub open spec fn with_sections(text: Seq<char>) -> Seq<char> {
    missing(text, ".code"@) + missing(text, ".data"@) + text
}

/// The characters of `text`.
fn characters(text: &str) -> (found: Vec<char>)
    ensures
        found@ == text@,
{
    let mut found: Vec<char> = Vec::new();
    for c in it: text.chars()
        invariant
            found@ == it.seq().take(it.index() as int),
            it.seq() == text@,
    {
        found.push(c);
    }
    found
}

/// Whether `needle` stands in `text` from index `at` on.
fn matches_at(text: &Vec<char>, needle: &Vec<char>, at: usize) -> (r: bool)
    requires
        at + needle.len() <= text.len(),
    ensures
        r == occurs_at(text@, needle@, at as int),
{
    let mut k: usize = 0;
    while k < needle.len()
        invariant
            k <= needle.len(),
            at + needle.len() <= text.len(),
            forall|j: int| 0 <= j < k ==> text@[at + j] == needle@[j],
        decreases needle.len() - k,
    {
        if text[at + k] != needle[k] {
            assert(text@.subrange(at as int, at + needle.len())[k as int] != needle@[k as int]);
            return false;
        }
        k += 1;
    }
    assert(text@.subrange(at as int, at + needle.len()) =~= needle@);
    true
}

/// Whether `needle` stands somewhere in `text`.
pub fn contains(text: &str, needle: &str) -> (r: bool)
    ensures
        r == occurs(text@, needle@),
{
    let hay = characters(text);
    let pin = characters(needle);
    if pin.len() > hay.len() {
        return false;
    }
    let last: usize = hay.len() - pin.len();
    let mut at: usize = 0;
    loop
        invariant
            hay@ == text@,
            pin@ == needle@,
            last == hay.len() - pin.len(),
            at <= last,
            forall|i: int| 0 <= i < at ==> !occurs_at(hay@, pin@, i),
        decreases last - at,
    {
        if matches_at(&hay, &pin, at) {
            return true;
        }
        if at == last {
            return false;
        }
        at += 1;
    }
}

/// The lines one after the other, with a line feed between each two.
pub fn join(lines: &Vec<String>) -> (text: String)
    ensures
        text@ == joined(texts(lines@)),
{
    let ghost all = texts(lines@);
    let mut text = String::new();
    let mut i: usize = 0;
    while i < lines.len()
        invariant
            i <= lines.len(),
            all == texts(lines@),
            text@ == joined(all.take(i as int)),
        decreases lines.len() - i,
    {
        if i > 0 {
            text.append("\n");
        }
        text.append(lines[i].as_str());
        proof {
            assert(all.take(i + 1).drop_last() =~= all.take(i as int));
            assert(all.take(i + 1).last() == lines@[i as int]@);
            if i == 0 {
                assert(text@ =~= lines@[0]@);
            }
        }
        i += 1;
    }
    assert(all.take(i as int) =~= all);
    text
}

/// `input` behind the section markers that it lacks.
pub fn prepend_sections(input: &str) -> (text: String)
    ensures
        text@ == with_sections(input@),
{
    let mut text = String::new();
    if !contains(input, ".code") {
        text.append(".code");
        text.append("\n");
    }
    if !contains(input, ".data") {
        text.append(".data");
        text.append("\n");
    }
    text.append(input);
    assert(text@ =~= with_sections(input@));
    text
}

} // verus!
