//! Small helpers over character sequences.

use vstd::prelude::*;

verus! {

/// Whether `name` starts with the hidden-entry marker, a leading dot.
pub open spec fn is_hidden_name(name: Seq<char>) -> bool {
    name.len() > 0 && name[0] == '.'
}

/// Position of the last `.` in `name`, if it holds one.
pub open spec fn last_dot(name: Seq<char>) -> Option<int>
    decreases name.len(),
{
    if name.len() == 0 {
        None
    } else if name.last() == '.' {
        Some(name.len() - 1)
    } else {
        last_dot(name.drop_last())
    }
}

/// Tells whether an entry name is hidden.
pub fn is_hidden(name: &str) -> (hidden: bool)
    ensures
        hidden == is_hidden_name(name@),
{
    let mut chars = name.chars();
    match chars.next() {
        Some(c) => c == '.',
        None => false,
    }
}

/// Finds the last `.` of `name`, counted in characters.
pub fn find_last_dot(name: &str) -> (found: Option<usize>)
    ensures
        match found {
            Some(i) => last_dot(name@) == Some(i as int),
            None => last_dot(name@) is None,
        },
{
    let length: usize = name.unicode_len();
    let mut found: Option<usize> = None;
    let mut index: usize = 0;
    for c in it: name.chars()
        invariant
            it.seq() == name@,
            index == it.index(),
            length == name@.len(),
            match found {
                Some(i) => last_dot(name@.take(index as int)) == Some(i as int),
                None => last_dot(name@.take(index as int)) is None,
            },
    {
        proof {
            assert(name@.take(index + 1).drop_last() == name@.take(index as int));
        }
        if c == '.' {
            found = Some(index);
        }
        index = index + 1;
    }
    proof {
        assert(name@.take(index as int) == name@);
    }
    found
}

/// What the characterisation of `last_dot` amounts to: the position it gives
/// holds a dot and no later position does; it gives none exactly when `name`
/// is free of dots.
pub proof fn lemma_last_dot(name: Seq<char>)
    ensures
        match last_dot(name) {
            Some(i) => 0 <= i < name.len() && name[i] == '.' && forall|j: int|
                i < j < name.len() ==> name[j] != '.',
            None => forall|j: int| 0 <= j < name.len() ==> name[j] != '.',
        },
    decreases name.len(),
{
    if name.len() > 0 && name.last() != '.' {
        let front = name.drop_last();
        lemma_last_dot(front);
        assert(forall|j: int| 0 <= j < front.len() ==> front[j] == name[j]);
    }
}

/// The part of `name` before its last dot; all of it when it has no dot.
pub open spec fn stem_of(name: Seq<char>) -> Seq<char> {
    match last_dot(name) {
        Some(i) => name.take(i),
        None => name,
    }
}

/// The part of `name` from its last dot on, the dot included; empty when it
/// has no dot.
pub open spec fn suffix_of(name: Seq<char>) -> Seq<char> {
    match last_dot(name) {
        Some(i) => name.skip(i),
        None => Seq::empty(),
    }
}

/// Splits `name` at its last dot into stem and suffix.
pub fn split_name(name: &str) -> (parts: (String, String))
    ensures
        parts.0@ == stem_of(name@),
        parts.1@ == suffix_of(name@),
        parts.0@ + parts.1@ == name@,
{
    proof {
        lemma_last_dot(name@);
    }
    match find_last_dot(name) {
        Some(i) => {
            let length: usize = name.unicode_len();
            let stem = name.substring_char(0, i).to_owned();
            let suffix = name.substring_char(i, length).to_owned();
            proof {
                assert(name@.subrange(0, i as int) == name@.take(i as int));
                assert(name@.subrange(i as int, length as int) == name@.skip(i as int));
                assert(name@.take(i as int) + name@.skip(i as int) == name@);
            }
            (stem, suffix)
        },
        None => {
            proof {
                assert(name@ + Seq::<char>::empty() == name@);
            }
            (name.to_owned(), String::new())
        },
    }
}

/// What follows the last dot of `name`; none where it has no dot.
pub open spec fn extension_of(name: Seq<char>) -> Option<Seq<char>> {
    match last_dot(name) {
        Some(i) => Some(name.skip(i + 1)),
        None => None,
    }
}

/// The decimal digit for a value below ten.
pub open spec fn digit(d: nat) -> char {
    if d == 0 {
        '0'
    } else if d == 1 {
        '1'
    } else if d == 2 {
        '2'
    } else if d == 3 {
        '3'
    } else if d == 4 {
        '4'
    } else if d == 5 {
        '5'
    } else if d == 6 {
        '6'
    } else if d == 7 {
        '7'
    } else if d == 8 {
        '8'
    } else {
        '9'
    }
}

/// The decimal numeral of `n`, most significant digit first, without
/// leading zeros.
pub open spec fn decimal(n: nat) -> Seq<char>
    decreases n,
{
    if n < 10 {
        seq![digit(n)]
    } else {
        decimal(n / 10).push(digit(n % 10))
    }
}

fn digit_str(d: u64) -> (s: &'static str)
    requires
        d < 10,
    ensures
        s@ == seq![digit(d as nat)],
{
    proof {
        reveal_strlit("0");
        reveal_strlit("1");
        reveal_strlit("2");
        reveal_strlit("3");
        reveal_strlit("4");
        reveal_strlit("5");
        reveal_strlit("6");
        reveal_strlit("7");
        reveal_strlit("8");
        reveal_strlit("9");
    }
    let s = match d {
        0 => "0",
        1 => "1",
        2 => "2",
        3 => "3",
        4 => "4",
        5 => "5",
        6 => "6",
        7 => "7",
        8 => "8",
        _ => "9",
    };
    assert(s@ =~= seq![digit(d as nat)]);
    s
}

/// Writes `n` as a decimal numeral.
pub fn decimal_string(n: u64) -> (s: String)
    ensures
        s@ == decimal(n as nat),
    decreases n,
{
    if n < 10 {
        digit_str(n).to_owned()
    } else {
        let head = decimal_string(n / 10);
        let s = head.concat(digit_str(n % 10));
        proof {
            assert(s@ == decimal((n / 10) as nat).push(digit((n % 10) as nat)));
        }
        s
    }
}

/// `name` placed under the directory `dir`: the two joined by one `/`,
/// which is left out where `dir` is empty or already ends in one.
pub open spec fn join_path(dir: Seq<char>, name: Seq<char>) -> Seq<char> {
    if dir.len() == 0 {
        name
    } else if dir.last() == '/' {
        dir + name
    } else {
        dir + seq!['/'] + name
    }
}

/// Joins a directory and a name into one path.
pub fn join(dir: &str, name: &str) -> (path: String)
    ensures
        path@ == join_path(dir@, name@),
{
    let length: usize = dir.unicode_len();
    if length == 0 {
        name.to_owned()
    } else if dir.get_char(length - 1) == '/' {
        dir.to_owned().concat(name)
    } else {
        proof {
            reveal_strlit("/");
            assert("/"@ =~= seq!['/']);
        }
        dir.to_owned().concat("/").concat(name)
    }
}

/// The lower-case form of `text` as `str::to_lowercase` of the standard
/// library gives it.
pub uninterp spec fn lowercase(text: Seq<char>) -> Seq<char>;

/// Calls `str::to_lowercase`. Nothing is proved of the call: its result is
/// taken to be a function of the text alone, which `lowercase` names.
#[verifier::external_body]
pub(crate) fn to_lowercase(text: &str) -> (lowered: String)
    ensures
        lowered@ == lowercase(text@),
{
    text.to_lowercase()
}

} // verus!
