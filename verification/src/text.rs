use vstd::prelude::*;

verus! {

/// The characters that `char::is_whitespace` accepts: the Unicode `White_Space` property.
pub open spec fn is_white_space(c: char) -> bool {
    let code = c as u32;
    ||| 0x09 <= code <= 0x0D
    ||| code == 0x20
    ||| code == 0x85
    ||| code == 0xA0
    ||| code == 0x1680
    ||| 0x2000 <= code <= 0x200A
    ||| code == 0x2028
    ||| code == 0x2029
    ||| code == 0x202F
    ||| code == 0x205F
    ||| code == 0x3000
}

pub fn white_space(c: char) -> (result: bool)
    ensures
        result == is_white_space(c),
{
    let code = c as u32;
    (0x09 <= code && code <= 0x0D) || code == 0x20 || code == 0x85 || code == 0xA0 || code
        == 0x1680 || (0x2000 <= code && code <= 0x200A) || code == 0x2028 || code == 0x2029 || code
        == 0x202F || code == 0x205F || code == 0x3000
}

/// The characters of a string slice.
pub fn chars_of(text: &str) -> (chars: Vec<char>)
    ensures
        chars@ == text@,
{
    let mut chars: Vec<char> = Vec::new();
    for c in iter: text.chars()
        invariant
            iter.seq() == text@,
            chars@ == text@.take(iter.index() as int),
    {
        chars.push(c);
    }
    chars
}

/// `c` as `char::to_ascii_lowercase` gives it.
pub open spec fn lower_char(c: char) -> char {
    if 'A' <= c <= 'Z' {
        ((c as u32) + 32) as char
    } else {
        c
    }
}

/// `s` as `str::to_ascii_lowercase` gives it.
pub open spec fn ascii_lower(s: Seq<char>) -> Seq<char> {
    s.map_values(|c: char| lower_char(c))
}

/// `chars` as `str::to_ascii_lowercase` gives them.
pub fn lowercase(chars: &[char]) -> (result: Vec<char>)
    ensures
        result@ == ascii_lower(chars@),
{
    let mut result: Vec<char> = Vec::new();
    let mut i: usize = 0;
    while i < chars.len()
        invariant
            0 <= i <= chars@.len(),
            result@ == ascii_lower(chars@.take(i as int)),
        decreases chars@.len() - i,
    {
        let c = chars[i];
        let lower = if 'A' <= c && c <= 'Z' {
            ((c as u8) + 32) as char
        } else {
            c
        };
        result.push(lower);
        i = i + 1;
        assert(ascii_lower(chars@.take(i as int)) =~= ascii_lower(chars@.take(i - 1)).push(
            lower_char(c),
        ));
    }
    assert(chars@.take(chars@.len() as int) =~= chars@);
    result
}

/// Whether `chars` reads exactly as `literal`.
pub fn equals(chars: &[char], literal: &str) -> (result: bool)
    ensures
        result == (chars@ == literal@),
{
    let other = chars_of(literal);
    same_chars(chars, &other)
}

/// Whether two strings hold the same characters.
pub fn same_text(a: &str, b: &str) -> (result: bool)
    ensures
        result == (a@ == b@),
{
    let a_chars = chars_of(a);
    equals(&a_chars, b)
}

/// Whether two character sequences are equal.
pub fn same_chars(chars: &[char], other: &[char]) -> (result: bool)
    ensures
        result == (chars@ == other@),
{
    if chars.len() != other.len() {
        return false;
    }
    let mut i: usize = 0;
    while i < chars.len()
        invariant
            chars@.len() == other@.len(),
            0 <= i <= chars@.len(),
            forall|j: int| 0 <= j < i ==> chars@[j] == other@[j],
        decreases chars@.len() - i,
    {
        if chars[i] != other[i] {
            assert(chars@[i as int] != other@[i as int]);
            return false;
        }
        i = i + 1;
    }
    assert(chars@ =~= other@);
    true
}

/// Appends the characters of `literal` to `out`.
pub fn append(out: &mut Vec<char>, literal: &str)
    ensures
        final(out)@ == old(out)@ + literal@,
{
    let other = chars_of(literal);
    append_chars(out, &other);
}

/// Appends `chars` to `out`.
pub fn append_chars(out: &mut Vec<char>, chars: &[char])
    ensures
        final(out)@ == old(out)@ + chars@,
{
    let mut i: usize = 0;
    while i < chars.len()
        invariant
            0 <= i <= chars@.len(),
            out@ == old(out)@ + chars@.take(i as int),
        decreases chars@.len() - i,
    {
        out.push(chars[i]);
        i = i + 1;
        assert(chars@.take(i as int) =~= chars@.take(i - 1).push(chars@[i - 1]));
    }
    assert(chars@.take(chars@.len() as int) =~= chars@);
}

/// A `String` holding `chars`, made by std's `impl FromIterator<&char> for String`
/// (`collect`), which pushes each character in order: the contract claims that the
/// `String`'s characters are `chars`, in order.
#[verifier::external_body]
pub(crate) fn string_from(chars: &Vec<char>) -> (text: String)
    ensures
        text@ == chars@,
{
    chars.iter().collect()
}

} // verus!

verus! {

/// The characters of each vector in `v`.
pub open spec fn views(v: Seq<Vec<char>>) -> Seq<Seq<char>> {
    v.map_values(|w: Vec<char>| w@)
}

/// The state of splitting `s` at white space: the words ended so far and the word in progress.
pub open spec fn scan_words(s: Seq<char>) -> (Seq<Seq<char>>, Seq<char>)
    decreases s.len(),
{
    if s.len() == 0 {
        (seq![], seq![])
    } else {
        let (done, current) = scan_words(s.drop_last());
        if is_white_space(s.last()) {
            if current.len() > 0 {
                (done.push(current), seq![])
            } else {
                (done, current)
            }
        } else {
            (done, current.push(s.last()))
        }
    }
}

/// The words of `s`, as `str::split_whitespace` yields them.
pub open spec fn words(s: Seq<char>) -> Seq<Seq<char>> {
    let (done, current) = scan_words(s);
    if current.len() > 0 {
        done.push(current)
    } else {
        done
    }
}

pub fn split_words(chars: &Vec<char>) -> (result: Vec<Vec<char>>)
    ensures
        views(result@) == words(chars@),
{
    let mut done: Vec<Vec<char>> = Vec::new();
    let mut current: Vec<char> = Vec::new();
    let mut i: usize = 0;
    while i < chars.len()
        invariant
            0 <= i <= chars@.len(),
            (views(done@), current@) == scan_words(chars@.take(i as int)),
        decreases chars@.len() - i,
    {
        let c = chars[i];
        assert(chars@.take(i + 1).drop_last() =~= chars@.take(i as int));
        if white_space(c) {
            if current.len() > 0 {
                let word = current;
                current = Vec::new();
                done.push(word);
                assert(views(done@) =~= scan_words(chars@.take(i + 1)).0);
            }
        } else {
            current.push(c);
        }
        i = i + 1;
    }
    assert(chars@.take(chars@.len() as int) =~= chars@);
    if current.len() > 0 {
        done.push(current);
        assert(views(done@) =~= words(chars@));
    }
    done
}

/// Drops one carriage return at the end of `line`.
pub open spec fn strip_return(line: Seq<char>) -> Seq<char> {
    if line.len() > 0 && line.last() == '\r' {
        line.drop_last()
    } else {
        line
    }
}

/// The state of splitting `s` into lines: the lines ended so far and the line in progress.
pub open spec fn scan_lines(s: Seq<char>) -> (Seq<Seq<char>>, Seq<char>)
    decreases s.len(),
{
    if s.len() == 0 {
        (seq![], seq![])
    } else {
        let (done, current) = scan_lines(s.drop_last());
        if s.last() == '\n' {
            (done.push(strip_return(current)), seq![])
        } else {
            (done, current.push(s.last()))
        }
    }
}

/// The lines of `s`, as `str::lines` yields them: split at `\n`, a `\r` before it dropped,
/// and no empty last line after a final `\n`.
pub open spec fn lines(s: Seq<char>) -> Seq<Seq<char>> {
    let (done, current) = scan_lines(s);
    if current.len() > 0 {
        done.push(current)
    } else {
        done
    }
}

pub fn split_lines(chars: &Vec<char>) -> (result: Vec<Vec<char>>)
    ensures
        views(result@) == lines(chars@),
{
    let mut done: Vec<Vec<char>> = Vec::new();
    let mut current: Vec<char> = Vec::new();
    let mut i: usize = 0;
    while i < chars.len()
        invariant
            0 <= i <= chars@.len(),
            (views(done@), current@) == scan_lines(chars@.take(i as int)),
        decreases chars@.len() - i,
    {
        let c = chars[i];
        assert(chars@.take(i + 1).drop_last() =~= chars@.take(i as int));
        if c == '\n' {
            let mut line = current;
            current = Vec::new();
            if line.len() > 0 && line[line.len() - 1] == '\r' {
                line.pop();
            }
            done.push(line);
            assert(views(done@) =~= scan_lines(chars@.take(i + 1)).0);
        } else {
            current.push(c);
        }
        i = i + 1;
    }
    assert(chars@.take(chars@.len() as int) =~= chars@);
    if current.len() > 0 {
        done.push(current);
        assert(views(done@) =~= lines(chars@));
    }
    done
}

/// `s` split at its first `separator`, as `str::split_once` splits it.
pub open spec fn split_once(s: Seq<char>, separator: char) -> Option<(Seq<char>, Seq<char>)>
    decreases s.len(),
{
    if s.len() == 0 {
        None
    } else if s[0] == separator {
        Some((seq![], s.drop_first()))
    } else {
        match split_once(s.drop_first(), separator) {
            Some((before, after)) => Some((seq![s[0]] + before, after)),
            None => None,
        }
    }
}

proof fn lemma_split_once_at(s: Seq<char>, separator: char, i: int)
    requires
        0 <= i < s.len(),
        s[i] == separator,
        forall|j: int| 0 <= j < i ==> s[j] != separator,
    ensures
        split_once(s, separator) == Some((s.take(i), s.skip(i + 1))),
    decreases i,
{
    if i > 0 {
        lemma_split_once_at(s.drop_first(), separator, i - 1);
        assert(seq![s[0]] + s.drop_first().take(i - 1) =~= s.take(i));
        assert(s.drop_first().skip(i) =~= s.skip(i + 1));
    } else {
        assert(s.take(0) =~= seq![]);
        assert(s.drop_first() =~= s.skip(1));
    }
}

proof fn lemma_split_once_none(s: Seq<char>, separator: char)
    requires
        forall|j: int| 0 <= j < s.len() ==> s[j] != separator,
    ensures
        split_once(s, separator) is None,
    decreases s.len(),
{
    if s.len() > 0 {
        lemma_split_once_none(s.drop_first(), separator);
    }
}

pub fn split_once_at(chars: &[char], separator: char) -> (result: Option<(Vec<char>, Vec<char>)>)
    ensures
        match result {
            Some((before, after)) => split_once(chars@, separator) == Some((before@, after@)),
            None => split_once(chars@, separator) is None,
        },
{
    let mut i: usize = 0;
    while i < chars.len()
        invariant
            0 <= i <= chars@.len(),
            forall|j: int| 0 <= j < i ==> chars@[j] != separator,
        decreases chars@.len() - i,
    {
        if chars[i] == separator {
            let mut before: Vec<char> = Vec::new();
            let mut after: Vec<char> = Vec::new();
            let mut k: usize = 0;
            while k < i
                invariant
                    0 <= k <= i < chars@.len(),
                    before@ == chars@.take(k as int),
                decreases i - k,
            {
                before.push(chars[k]);
                k = k + 1;
                assert(before@ =~= chars@.take(k as int));
            }
            k = i + 1;
            while k < chars.len()
                invariant
                    i + 1 <= k <= chars@.len(),
                    after@ == chars@.subrange(i + 1, k as int),
                decreases chars@.len() - k,
            {
                after.push(chars[k]);
                k = k + 1;
                assert(after@ =~= chars@.subrange(i + 1, k as int));
            }
            proof {
                lemma_split_once_at(chars@, separator, i as int);
                assert(after@ =~= chars@.skip(i + 1));
            }
            return Some((before, after));
        }
        i = i + 1;
    }
    proof {
        lemma_split_once_none(chars@, separator);
    }
    None
}

} // verus!

verus! {

/// Lines, each followed by `\n`.
pub open spec fn joined(ls: Seq<Seq<char>>) -> Seq<char>
    decreases ls.len(),
{
    if ls.len() == 0 {
        seq![]
    } else {
        joined(ls.drop_last()) + ls.last() + seq!['\n']
    }
}

pub proof fn lemma_joined_step(ls: Seq<Seq<char>>, k: int)
    requires
        0 <= k < ls.len(),
    ensures
        joined(ls.take(k + 1)) == joined(ls.take(k)) + ls[k] + seq!['\n'],
{
    assert(ls.take(k + 1).drop_last() =~= ls.take(k));
}

/// `l` holds no `\n` and does not end with `\r`, so `lines` gives it back whole.
pub open spec fn is_plain_line(l: Seq<char>) -> bool {
    &&& forall|i: int| 0 <= i < l.len() ==> #[trigger] l[i] != '\n'
    &&& !(l.len() > 0 && l.last() == '\r')
}

proof fn lemma_scan_lines_append(p: Seq<char>, l: Seq<char>)
    requires
        scan_lines(p).1 == Seq::<char>::empty(),
        forall|i: int| 0 <= i < l.len() ==> #[trigger] l[i] != '\n',
    ensures
        scan_lines(p + l) == (scan_lines(p).0, l),
    decreases l.len(),
{
    if l.len() == 0 {
        assert(p + l =~= p);
    } else {
        lemma_scan_lines_append(p, l.drop_last());
        assert((p + l).drop_last() =~= p + l.drop_last());
        assert(l.drop_last().push(l.last()) =~= l);
    }
}

pub proof fn lemma_lines_joined(ls: Seq<Seq<char>>)
    requires
        forall|i: int| 0 <= i < ls.len() ==> is_plain_line(#[trigger] ls[i]),
    ensures
        scan_lines(joined(ls)) == (ls, Seq::<char>::empty()),
        lines(joined(ls)) == ls,
    decreases ls.len(),
{
    if ls.len() > 0 {
        let before = ls.drop_last();
        assert forall|i: int| 0 <= i < before.len() implies is_plain_line(#[trigger] before[i]) by {
            assert(before[i] == ls[i]);
        }
        lemma_lines_joined(before);
        let l = ls.last();
        assert(is_plain_line(ls[ls.len() - 1]));
        lemma_scan_lines_append(joined(before), l);
        let s = joined(ls);
        assert(s.drop_last() =~= joined(before) + l);
        assert(before.push(l) =~= ls);
    }
}

pub proof fn lemma_split_once_entry(key: Seq<char>, separator: char, value: Seq<char>)
    requires
        forall|i: int| 0 <= i < key.len() ==> #[trigger] key[i] != separator,
    ensures
        split_once(key + seq![separator] + value, separator) == Some((key, value)),
{
    let s = key + seq![separator] + value;
    lemma_split_once_at(s, separator, key.len() as int);
    assert(s.take(key.len() as int) =~= key);
    assert(s.skip(key.len() as int + 1) =~= value);
}

} // verus!

verus! {

/// `s` without leading white space.
pub open spec fn trim_start(s: Seq<char>) -> Seq<char>
    decreases s.len(),
{
    if s.len() > 0 && is_white_space(s[0]) {
        trim_start(s.drop_first())
    } else {
        s
    }
}

/// `s` without trailing white space.
pub open spec fn trim_end(s: Seq<char>) -> Seq<char>
    decreases s.len(),
{
    if s.len() > 0 && is_white_space(s.last()) {
        trim_end(s.drop_last())
    } else {
        s
    }
}

/// `s` without leading and trailing white space, as `str::trim` gives it.
pub open spec fn trim(s: Seq<char>) -> Seq<char> {
    trim_end(trim_start(s))
}

/// The characters of `chars` without leading and trailing white space.
pub fn trimmed(chars: &[char]) -> (result: Vec<char>)
    ensures
        result@ == trim(chars@),
{
    let mut start: usize = 0;
    assert(chars@.skip(0) =~= chars@);
    while start < chars.len() && white_space(chars[start])
        invariant
            0 <= start <= chars@.len(),
            trim_start(chars@) == trim_start(chars@.skip(start as int)),
        decreases chars@.len() - start,
    {
        assert(chars@.skip(start as int).drop_first() =~= chars@.skip(start + 1));
        start = start + 1;
    }
    let ghost front = chars@.skip(start as int);
    assert(trim_start(chars@) == front);
    let mut end: usize = chars.len();
    assert(front.take(front.len() as int) =~= front);
    while end > start && white_space(chars[end - 1])
        invariant
            start <= end <= chars@.len(),
            front == chars@.skip(start as int),
            trim_end(front) == trim_end(chars@.subrange(start as int, end as int)),
        decreases end - start,
    {
        assert(chars@.subrange(start as int, end as int).drop_last() =~= chars@.subrange(
            start as int,
            end - 1,
        ));
        end = end - 1;
    }
    assert(chars@.skip(start as int) =~= chars@.subrange(start as int, chars@.len() as int));
    let mut result: Vec<char> = Vec::new();
    let mut i: usize = start;
    while i < end
        invariant
            start <= i <= end <= chars@.len(),
            result@ == chars@.subrange(start as int, i as int),
        decreases end - i,
    {
        result.push(chars[i]);
        i = i + 1;
        assert(result@ =~= chars@.subrange(start as int, i as int));
    }
    result
}

} // verus!

verus! {

/// The state of splitting `s` at `separator`: the pieces ended so far and the piece in
/// progress.
pub open spec fn scan_pieces(s: Seq<char>, separator: char) -> (Seq<Seq<char>>, Seq<char>)
    decreases s.len(),
{
    if s.len() == 0 {
        (seq![], seq![])
    } else {
        let (done, current) = scan_pieces(s.drop_last(), separator);
        if s.last() == separator {
            (done.push(current), seq![])
        } else {
            (done, current.push(s.last()))
        }
    }
}

/// The pieces of `s` between separators, as `str::split` yields them.
pub open spec fn pieces(s: Seq<char>, separator: char) -> Seq<Seq<char>> {
    let (done, current) = scan_pieces(s, separator);
    done.push(current)
}

pub fn split_pieces(chars: &Vec<char>, separator: char) -> (result: Vec<Vec<char>>)
    ensures
        views(result@) == pieces(chars@, separator),
{
    let mut done: Vec<Vec<char>> = Vec::new();
    let mut current: Vec<char> = Vec::new();
    let mut i: usize = 0;
    while i < chars.len()
        invariant
            0 <= i <= chars@.len(),
            (views(done@), current@) == scan_pieces(chars@.take(i as int), separator),
        decreases chars@.len() - i,
    {
        let c = chars[i];
        assert(chars@.take(i + 1).drop_last() =~= chars@.take(i as int));
        if c == separator {
            let piece = current;
            current = Vec::new();
            done.push(piece);
            assert(views(done@) =~= scan_pieces(chars@.take(i + 1), separator).0);
        } else {
            current.push(c);
        }
        i = i + 1;
    }
    assert(chars@.take(chars@.len() as int) =~= chars@);
    done.push(current);
    assert(views(done@) =~= pieces(chars@, separator));
    done
}

} // verus!
