//! Finding a removable volume by its label, in a table of mounts that the
//! caller has read.
//!
//! The table has the layout of `/proc/self/mounts`: one mount on each line,
//! the fields of a line separated by blanks, the mount point second.

use vstd::prelude::*;
use crate::storage::error::StorageError;
use crate::text::{chars_between, chars_of, contains_chars, contains_text, string_of};

pub mod for_windows;

verus! {

/// `c` separates the fields of a line.
pub open spec fn is_blank(c: char) -> bool {
    c == ' ' || c == '\t' || c == '\n' || c == '\r' || c == '\x0b' || c == '\x0c'
}

/// `text` split at each line feed: one line more than it has line feeds.
pub open spec fn lines_of(text: Seq<char>) -> Seq<Seq<char>>
    decreases text.len(),
{
    if text.len() == 0 {
        seq![Seq::empty()]
    } else {
        let before = lines_of(text.drop_last());
        if text.last() == '\n' {
            before.push(Seq::empty())
        } else {
            before.drop_last().push(before.last().push(text.last()))
        }
    }
}

/// `s` without the blanks at its beginning.
pub open spec fn without_leading_blanks(s: Seq<char>) -> Seq<char>
    decreases s.len(),
{
    if s.len() > 0 && is_blank(s[0]) {
        without_leading_blanks(s.skip(1))
    } else {
        s
    }
}

/// The characters of `s` in front of its first blank.
pub open spec fn first_word(s: Seq<char>) -> Seq<char>
    decreases s.len(),
{
    if s.len() == 0 || is_blank(s[0]) {
        Seq::empty()
    } else {
        seq![s[0]] + first_word(s.skip(1))
    }
}

/// The second field of a line, if it has two.
pub open spec fn second_field(line: Seq<char>) -> Option<Seq<char>> {
    let from_first = without_leading_blanks(line);
    let first = first_word(from_first);
    let from_second = without_leading_blanks(from_first.skip(first.len() as int));
    let second = first_word(from_second);
    if first.len() > 0 && second.len() > 0 {
        Some(second)
    } else {
        None
    }
}

/// The mount point of a line, if the line has one and `label` stands in
/// it.
pub open spec fn labelled_mount(line: Seq<char>, label: Seq<char>) -> Option<Seq<char>> {
    match second_field(line) {
        Some(mount) => if contains_text(mount, label) {
            Some(mount)
        } else {
            None
        },
        None => None,
    }
}

/// The mount point of the first of `lines` that has one in which `label`
/// stands.
pub open spec fn first_mount(lines: Seq<Seq<char>>, label: Seq<char>) -> Option<Seq<char>>
    decreases lines.len(),
{
    if lines.len() == 0 {
        None
    } else {
        match labelled_mount(lines[0], label) {
            Some(mount) => Some(mount),
            None => first_mount(lines.skip(1), label),
        }
    }
}

/// The message for a label that no mount point carries.
pub open spec fn not_mounted(label: Seq<char>) -> Seq<char> {
    "device '"@ + label + "' not mounted"@
}

/// Where `s` has blanks in front of position `at` and none at `at`, what
/// is left without the leading blanks begins at `at`.
proof fn lemma_without_leading_blanks(s: Seq<char>, at: int)
    requires
        0 <= at <= s.len(),
        forall|j: int| 0 <= j < at ==> is_blank(s[j]),
        at == s.len() || !is_blank(s[at]),
    ensures
        without_leading_blanks(s) == s.skip(at),
    decreases s.len(),
{
    if at == 0 {
        assert(s.skip(0) =~= s);
    } else {
        let rest = s.skip(1);
        assert forall|j: int| 0 <= j < at - 1 implies is_blank(rest[j]) by {
            assert(rest[j] == s[j + 1]);
        }
        lemma_without_leading_blanks(rest, at - 1);
        assert(rest.skip(at - 1) =~= s.skip(at));
    }
}

/// Where `s` has no blank in front of position `at` and one at `at`, its
/// first word ends at `at`.
proof fn lemma_first_word(s: Seq<char>, at: int)
    requires
        0 <= at <= s.len(),
        forall|j: int| 0 <= j < at ==> !is_blank(s[j]),
        at == s.len() || is_blank(s[at]),
    ensures
        first_word(s) == s.take(at),
    decreases s.len(),
{
    if at == 0 {
        assert(s.take(0) =~= Seq::<char>::empty());
    } else {
        let rest = s.skip(1);
        assert forall|j: int| 0 <= j < at - 1 implies !is_blank(rest[j]) by {
            assert(rest[j] == s[j + 1]);
        }
        lemma_first_word(rest, at - 1);
        assert(seq![s[0]] + rest.take(at - 1) =~= s.take(at));
    }
}

/// Whether `c` separates the fields of a line.
fn blank(c: char) -> (r: bool)
    ensures
        r == is_blank(c),
{
    c == ' ' || c == '\t' || c == '\n' || c == '\r' || c == '\x0b' || c == '\x0c'
}

/// The position of the first character at or behind `from` that is no
/// blank.
fn skip_blanks(v: &Vec<char>, from: usize) -> (at: usize)
    requires
        from <= v.len(),
    ensures
        from <= at <= v.len(),
        without_leading_blanks(v@.skip(from as int)) == v@.skip(at as int),
{
    let mut at = from;
    while at < v.len() && blank(v[at])
        invariant
            from <= at <= v.len(),
            forall|j: int| from <= j < at ==> is_blank(v@[j]),
        decreases v.len() - at,
    {
        at += 1;
    }
    proof {
        lemma_without_leading_blanks(v@.skip(from as int), at - from);
        assert(v@.skip(from as int).skip(at - from) =~= v@.skip(at as int));
    }
    at
}

/// The position of the first blank at or behind `from`.
fn skip_word(v: &Vec<char>, from: usize) -> (at: usize)
    requires
        from <= v.len(),
    ensures
        from <= at <= v.len(),
        first_word(v@.skip(from as int)) == v@.subrange(from as int, at as int),
{
    let mut at = from;
    while at < v.len() && !blank(v[at])
        invariant
            from <= at <= v.len(),
            forall|j: int| from <= j < at ==> !is_blank(v@[j]),
        decreases v.len() - at,
    {
        at += 1;
    }
    proof {
        lemma_first_word(v@.skip(from as int), at - from);
        assert(v@.skip(from as int).take(at - from) =~= v@.subrange(from as int, at as int));
    }
    at
}

/// The second field of a line, if it has two.
pub fn second_field_of(line: &Vec<char>) -> (field: Option<Vec<char>>)
    ensures
        field is Some <==> second_field(line@) is Some,
        field matches Some(f) ==> f@ == second_field(line@).unwrap(),
{
    let a = skip_blanks(line, 0);
    assert(line@.skip(0) =~= line@);
    let b = skip_word(line, a);
    let c = skip_blanks(line, b);
    let d = skip_word(line, c);
    proof {
        let from_first = without_leading_blanks(line@);
        assert(from_first.skip(b - a) =~= line@.skip(b as int));
    }
    if b > a && d > c {
        Some(chars_between(line, c, d))
    } else {
        None
    }
}

/// `text` split into its lines.
pub fn split_lines(text: &Vec<char>) -> (lines: Vec<Vec<char>>)
    ensures
        lines@.map_values(|l: Vec<char>| l@) == lines_of(text@),
{
    let mut done: Vec<Vec<char>> = Vec::new();
    let mut current: Vec<char> = Vec::new();
    let mut i: usize = 0;
    proof {
        assert(text@.take(0) =~= Seq::<char>::empty());
        assert(done@.map_values(|l: Vec<char>| l@).push(current@) =~= lines_of(text@.take(0)));
    }
    while i < text.len()
        invariant
            i <= text.len(),
            done@.map_values(|l: Vec<char>| l@).push(current@) == lines_of(text@.take(i as int)),
        decreases text.len() - i,
    {
        let ghost before = done@.map_values(|l: Vec<char>| l@);
        let ghost line = current@;
        proof {
            assert(text@.take(i + 1).drop_last() =~= text@.take(i as int));
            assert(text@.take(i + 1).last() == text@[i as int]);
            assert(lines_of(text@.take(i as int)).last() == line);
            assert(lines_of(text@.take(i as int)).drop_last() =~= before);
        }
        if text[i] == '\n' {
            done.push(current);
            current = Vec::new();
            assert(done@.map_values(|l: Vec<char>| l@).push(current@) =~= before.push(line).push(
                Seq::empty(),
            ));
        } else {
            current.push(text[i]);
            assert(done@.map_values(|l: Vec<char>| l@).push(current@) =~= before.push(
                line.push(text@[i as int]),
            ));
        }
        i += 1;
    }
    let ghost before = done@.map_values(|l: Vec<char>| l@);
    let ghost line = current@;
    done.push(current);
    proof {
        assert(text@.take(text@.len() as int) =~= text@);
        assert(done@.map_values(|l: Vec<char>| l@) =~= before.push(line));
    }
    done
}

/// Finds the mount point of the volume labelled `label` in a table of
/// mounts: the second field of the first line whose second field holds the
/// label.
pub fn find_mount_by_label(mounts: &str, label: &str) -> (r: Result<String, StorageError>)
    ensures
        match first_mount(lines_of(mounts@), label@) {
            Some(mount) => r matches Ok(path) && path@ == mount,
            None => r matches Err(StorageError::Internal(msg)) && msg@ == not_mounted(label@),
        },
{
    let text = chars_of(mounts);
    let wanted = chars_of(label);
    let lines = split_lines(&text);
    let ghost all = lines_of(mounts@);
    let mut i: usize = 0;
    assert(all.skip(0) =~= all);
    while i < lines.len()
        invariant
            i <= lines.len(),
            wanted@ == label@,
            all == lines_of(mounts@),
            all == lines@.map_values(|l: Vec<char>| l@),
            first_mount(all.skip(i as int), label@) == first_mount(all, label@),
        decreases lines.len() - i,
    {
        proof {
            assert(all.skip(i as int)[0] == lines@[i as int]@);
            assert(all.skip(i as int).skip(1) =~= all.skip(i + 1));
        }
        match second_field_of(&lines[i]) {
            Some(mount) => {
                if contains_chars(&mount, &wanted) {
                    return Ok(string_of(&mount));
                }
            },
            None => {},
        }
        i += 1;
    }
    Err(
        StorageError::Internal(
            String::from_str("device '").concat(label).concat("' not mounted"),
        ),
    )
}

} // verus!
