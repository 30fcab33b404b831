use vstd::prelude::*;

use crate::text::{ascii_lower, lowercase, trim, trimmed, append_chars, chars_of, equals, string_from, views};

verus! {

pub open spec fn is_name_char(c: char) -> bool {
    ||| 'a' <= c <= 'z'
    ||| 'A' <= c <= 'Z'
    ||| '0' <= c <= '9'
    ||| c == '-'
    ||| c == '_'
}

/// A profile name is one or more ASCII letters, digits, `-` or `_`: nothing that could
/// leave the profiles directory.
pub open spec fn is_profile_name(name: Seq<char>) -> bool {
    &&& name.len() > 0
    &&& forall|i: int| 0 <= i < name.len() ==> is_name_char(#[trigger] name[i])
}

pub fn valid_profile_chars(name: &[char]) -> (valid: bool)
    ensures
        valid == is_profile_name(name@),
{
    if name.len() == 0 {
        return false;
    }
    let mut i: usize = 0;
    while i < name.len()
        invariant
            0 <= i <= name@.len(),
            forall|j: int| 0 <= j < i ==> is_name_char(#[trigger] name@[j]),
        decreases name@.len() - i,
    {
        let c = name[i];
        if !(('a' <= c && c <= 'z') || ('A' <= c && c <= 'Z') || ('0' <= c && c <= '9') || c == '-'
            || c == '_') {
            assert(!is_name_char(name@[i as int]));
            return false;
        }
        i = i + 1;
    }
    true
}

} // verus!

verus! {

/// `a` comes no later than `b` in the order of `str`'s `Ord`: by code points, first
/// difference deciding, a prefix first. (UTF-8 byte order is code point order.)
pub open spec fn lex_le(a: Seq<char>, b: Seq<char>) -> bool
    decreases a.len(),
{
    if a.len() == 0 {
        true
    } else if b.len() == 0 {
        false
    } else if a[0] != b[0] {
        a[0] < b[0]
    } else {
        lex_le(a.drop_first(), b.drop_first())
    }
}

/// Profile names are listed in the order of their ASCII lower-case forms.
pub open spec fn name_le(a: Seq<char>, b: Seq<char>) -> bool {
    lex_le(ascii_lower(a), ascii_lower(b))
}

/// `x` placed into `sorted` after every name that does not come after it.
pub open spec fn insert_by_name(sorted: Seq<Seq<char>>, x: Seq<char>) -> Seq<Seq<char>>
    decreases sorted.len(),
{
    if sorted.len() == 0 {
        seq![x]
    } else if name_le(sorted.last(), x) {
        sorted.push(x)
    } else {
        insert_by_name(sorted.drop_last(), x).push(sorted.last())
    }
}

/// The names in order, names in the same place keeping their order (a stable sort).
pub open spec fn sort_by_name(names: Seq<Seq<char>>) -> Seq<Seq<char>>
    decreases names.len(),
{
    if names.len() == 0 {
        seq![]
    } else {
        insert_by_name(sort_by_name(names.drop_last()), names.last())
    }
}

/// The profile that a file is: a name with the extension `config`, and its stem.
pub open spec fn profile_stem(file_name: Seq<char>) -> Option<Seq<char>> {
    let n = file_name.len();
    if n > 7 && file_name.skip(n - 7) == ".config"@ {
        Some(file_name.take(n - 7))
    } else {
        None
    }
}

/// The profiles among the file names, in their order.
pub open spec fn profile_stems(file_names: Seq<Seq<char>>) -> Seq<Seq<char>>
    decreases file_names.len(),
{
    if file_names.len() == 0 {
        seq![]
    } else {
        let before = profile_stems(file_names.drop_last());
        match profile_stem(file_names.last()) {
            Some(stem) => before.push(stem),
            None => before,
        }
    }
}

fn lex_le_exec(a: &[char], b: &[char]) -> (result: bool)
    ensures
        result == lex_le(a@, b@),
{
    let mut i: usize = 0;
    assert(a@.skip(0) =~= a@);
    assert(b@.skip(0) =~= b@);
    while i < a.len()
        invariant
            0 <= i <= a@.len(),
            i <= b@.len(),
            lex_le(a@, b@) == lex_le(a@.skip(i as int), b@.skip(i as int)),
        decreases a@.len() - i,
    {
        assert(a@.skip(i as int)[0] == a@[i as int]);
        if i >= b.len() {
            return false;
        }
        assert(b@.skip(i as int)[0] == b@[i as int]);
        if a[i] != b[i] {
            return a[i] < b[i];
        }
        assert(a@.skip(i as int).drop_first() =~= a@.skip(i + 1));
        assert(b@.skip(i as int).drop_first() =~= b@.skip(i + 1));
        i = i + 1;
    }
    true
}

fn name_le_exec(a: &[char], b: &[char]) -> (result: bool)
    ensures
        result == name_le(a@, b@),
{
    lex_le_exec(&lowercase(a), &lowercase(b))
}

proof fn lemma_insert_at(sorted: Seq<Seq<char>>, x: Seq<char>, j: int)
    requires
        0 <= j <= sorted.len(),
        j > 0 ==> name_le(sorted[j - 1], x),
        forall|k: int| j <= k < sorted.len() ==> !name_le(#[trigger] sorted[k], x),
    ensures
        insert_by_name(sorted, x) == sorted.take(j).push(x) + sorted.skip(j),
    decreases sorted.len() - j,
{
    if sorted.len() == j {
        if j == 0 {
            assert(sorted.take(0).push(x) + sorted.skip(0) =~= seq![x]);
        } else {
            assert(sorted.take(j) =~= sorted);
            assert(sorted.take(j).push(x) + sorted.skip(j) =~= sorted.push(x));
        }
    } else {
        let rest = sorted.drop_last();
        assert forall|k: int| j <= k < rest.len() implies !name_le(#[trigger] rest[k], x) by {
            assert(rest[k] == sorted[k]);
        }
        if j > 0 {
            assert(rest[j - 1] == sorted[j - 1]);
        }
        lemma_insert_at(rest, x, j);
        assert(!name_le(sorted[sorted.len() - 1], x));
        assert(rest.take(j) =~= sorted.take(j));
        assert((rest.take(j).push(x) + rest.skip(j)).push(sorted.last()) =~= sorted.take(j).push(x)
            + sorted.skip(j));
    }
}

/// The names of the saved profiles among the files of the profiles directory: files with
/// the extension `config`, by their stems, in the order of their ASCII lower-case forms
/// (a stable sort).
pub fn profile_names_from(file_names: &Vec<String>) -> (names: Vec<String>)
    ensures
        names@.len() == sort_by_name(profile_stems(file_names@.map_values(|f: String| f@))).len(),
        forall|i: int|
            0 <= i < names@.len() ==> #[trigger] names@[i]@ == sort_by_name(
                profile_stems(file_names@.map_values(|f: String| f@)),
            )[i],
{
    let ghost files = file_names@.map_values(|f: String| f@);
    let mut stems: Vec<Vec<char>> = Vec::new();
    let mut i: usize = 0;
    while i < file_names.len()
        invariant
            0 <= i <= file_names@.len(),
            files == file_names@.map_values(|f: String| f@),
            views(stems@) == profile_stems(files.take(i as int)),
        decreases file_names@.len() - i,
    {
        let name = chars_of(file_names[i].as_str());
        assert(files.take(i + 1).drop_last() =~= files.take(i as int));
        assert(files.take(i + 1).last() == name@);
        let n = name.len();
        if n > 7 && equals(&tail(&name, n - 7), ".config") {
            let stem = head(&name, n - 7);
            stems.push(stem);
            assert(views(stems@) =~= profile_stems(files.take(i + 1)));
        }
        i = i + 1;
    }
    assert(files.take(file_names@.len() as int) =~= files);
    let mut sorted: Vec<Vec<char>> = Vec::new();
    let mut k: usize = 0;
    while k < stems.len()
        invariant
            0 <= k <= stems@.len(),
            views(stems@) == profile_stems(files),
            sorted@.len() == k,
            views(sorted@) == sort_by_name(views(stems@).take(k as int)),
        decreases stems@.len() - k,
    {
        let x = copy_chars(&stems[k]);
        assert(views(stems@).take(k + 1).drop_last() =~= views(stems@).take(k as int));
        assert(views(stems@).take(k + 1).last() == x@);
        let mut j: usize = sorted.len();
        while j > 0 && !name_le_exec(&sorted[j - 1], &x)
            invariant
                0 <= j <= sorted@.len(),
                forall|m: int| j <= m < sorted@.len() ==> !name_le(#[trigger] views(sorted@)[m], x@),
            decreases j,
        {
            j = j - 1;
        }
        proof {
            lemma_insert_at(views(sorted@), x@, j as int);
        }
        let ghost before = views(sorted@);
        sorted.insert(j, x);
        assert(views(sorted@) =~= before.take(j as int).push(x@) + before.skip(j as int));
        k = k + 1;
    }
    assert(views(stems@).take(stems@.len() as int) =~= views(stems@));
    let mut names: Vec<String> = Vec::new();
    let mut m: usize = 0;
    while m < sorted.len()
        invariant
            0 <= m <= sorted@.len(),
            names@.len() == m,
            forall|p: int| 0 <= p < m ==> #[trigger] names@[p]@ == sorted@[p]@,
        decreases sorted@.len() - m,
    {
        names.push(string_from(&sorted[m]));
        m = m + 1;
    }
    names
}

fn copy_chars(chars: &Vec<char>) -> (copy: Vec<char>)
    ensures
        copy@ == chars@,
{
    let mut copy: Vec<char> = Vec::new();
    append_chars(&mut copy, chars);
    copy
}

fn head(chars: &Vec<char>, n: usize) -> (result: Vec<char>)
    requires
        n <= chars@.len(),
    ensures
        result@ == chars@.take(n as int),
{
    let mut result: Vec<char> = Vec::new();
    let mut i: usize = 0;
    while i < n
        invariant
            0 <= i <= n <= chars@.len(),
            result@ == chars@.take(i as int),
        decreases n - i,
    {
        result.push(chars[i]);
        i = i + 1;
        assert(result@ =~= chars@.take(i as int));
    }
    result
}

fn tail(chars: &Vec<char>, start: usize) -> (result: Vec<char>)
    requires
        start <= chars@.len(),
    ensures
        result@ == chars@.skip(start as int),
{
    let mut result: Vec<char> = Vec::new();
    let mut i: usize = start;
    while i < chars.len()
        invariant
            start <= i <= chars@.len(),
            result@ == chars@.subrange(start as int, i as int),
        decreases chars@.len() - i,
    {
        result.push(chars[i]);
        i = i + 1;
        assert(result@ =~= chars@.subrange(start as int, i as int));
    }
    assert(chars@.subrange(start as int, chars@.len() as int) =~= chars@.skip(start as int));
    result
}

} // verus!

verus! {

/// Whether `name` is a valid profile name.
pub fn valid_profile_name(name: &str) -> (valid: bool)
    ensures
        valid == is_profile_name(name@),
{
    valid_profile_chars(&chars_of(name))
}

/// The profile name that a typed name stands for: the name without surrounding white
/// space, where that is a valid profile name.
pub fn profile_name(name: &str) -> (result: Option<String>)
    ensures
        is_profile_name(trim(name@)) ==> (result matches Some(n) && n@ == trim(name@)),
        !is_profile_name(trim(name@)) ==> result is None,
{
    let chars = chars_of(name);
    let name = trimmed(&chars);
    if valid_profile_chars(&name) {
        Some(string_from(&name))
    } else {
        None
    }
}

} // verus!
