//! Text as sequences of characters: the splitting, joining, comparing and
//! number formatting that the rest of the library is specified with.

use vstd::prelude::*;

verus! {

/// `String::push`: the text gains one character at its end.
pub assume_specification[ String::push ](string: &mut String, c: char)
    ensures
        final(string)@ == old(string)@.push(c),
;

/// Whether a character has the Unicode property White_Space.
pub open spec fn char_whitespace(c: char) -> bool {
    ||| 0x9 <= c as u32 <= 0xd
    ||| c as u32 == 0x20
    ||| c as u32 == 0x85
    ||| c as u32 == 0xa0
    ||| c as u32 == 0x1680
    ||| 0x2000 <= c as u32 <= 0x200a
    ||| c as u32 == 0x2028
    ||| c as u32 == 0x2029
    ||| c as u32 == 0x202f
    ||| c as u32 == 0x205f
    ||| c as u32 == 0x3000
}

/// `char::is_whitespace`: whether the character has the Unicode property
/// White_Space.
pub assume_specification[ char::is_whitespace ](c: char) -> (answer: bool)
    ensures
        answer == char_whitespace(c),
;

/// What `str::to_uppercase` returns for a text.
pub uninterp spec fn text_uppercase(s: Seq<char>) -> Seq<char>;

/// `str::to_uppercase`, whose result depends on the text alone.
pub assume_specification[ str::to_uppercase ](s: &str) -> (upper: String)
    ensures
        upper@ == text_uppercase(s@),
;

/// The texts that a sequence of strings holds.
pub open spec fn texts(strings: Seq<String>) -> Seq<Seq<char>> {
    strings.map_values(|s: String| s@)
}

/// The text pairs that a sequence of string pairs holds.
pub open spec fn text_pairs(pairs: Seq<(String, String)>) -> Seq<(Seq<char>, Seq<char>)> {
    pairs.map_values(|p: (String, String)| (p.0@, p.1@))
}

/// The text that an optional string holds.
pub open spec fn optional_text(s: Option<String>) -> Option<Seq<char>> {
    match s {
        Some(s) => Some(s@),
        None => None,
    }
}

/// The same strings once more.
pub fn copy_strings(strings: &Vec<String>) -> (copy: Vec<String>)
    ensures
        texts(copy@) == texts(strings@),
        copy@.len() == strings@.len(),
{
    let mut copy: Vec<String> = Vec::new();
    let count = strings.len();
    let mut i: usize = 0;
    while i < count
        invariant
            i <= count,
            count == strings@.len(),
            copy@.len() == i,
            forall|k: int| 0 <= k < i ==> (#[trigger] copy@[k])@ == strings@[k]@,
        decreases count - i,
    {
        copy.push(strings[i].clone());
        i += 1;
    }
    proof {
        assert(texts(copy@) =~= texts(strings@));
    }
    copy
}

/// The same pairs of strings once more.
pub fn copy_pairs(pairs: &Vec<(String, String)>) -> (copy: Vec<(String, String)>)
    ensures
        text_pairs(copy@) == text_pairs(pairs@),
        copy@.len() == pairs@.len(),
{
    let mut copy: Vec<(String, String)> = Vec::new();
    let count = pairs.len();
    let mut i: usize = 0;
    while i < count
        invariant
            i <= count,
            count == pairs@.len(),
            copy@.len() == i,
            forall|k: int|
                0 <= k < i ==> (#[trigger] copy@[k]).0@ == pairs@[k].0@ && copy@[k].1@
                    == pairs@[k].1@,
        decreases count - i,
    {
        copy.push((pairs[i].0.clone(), pairs[i].1.clone()));
        i += 1;
    }
    proof {
        assert(text_pairs(copy@) =~= text_pairs(pairs@));
    }
    copy
}

/// The characters of a string, in order.
pub fn chars_of(s: &str) -> (chars: Vec<char>)
    ensures
        chars@ == s@,
{
    let mut chars: Vec<char> = Vec::new();
    for c in it: s.chars()
        invariant
            it.seq() == s@,
            chars@ == s@.take(it.index() as int),
    {
        chars.push(c);
        assert(s@.take(it.index() as int + 1) == s@.take(it.index() as int).push(c));
    }
    assert(s@.take(s@.len() as int) == s@);
    chars
}

/// The string with the given characters.
pub fn string_of(chars: &[char]) -> (s: String)
    ensures
        s@ == chars@,
{
    let mut s = String::new();
    let mut i: usize = 0;
    while i < chars.len()
        invariant
            i <= chars@.len(),
            s@ == chars@.take(i as int),
        decreases chars@.len() - i,
    {
        s.push(chars[i]);
        proof {
            assert(chars@.take(i as int + 1) == chars@.take(i as int).push(chars@[i as int]));
        }
        i += 1;
    }
    proof {
        assert(chars@.take(chars@.len() as int) == chars@);
    }
    s
}

/// Whether two strings hold the same text.
pub fn same(a: &str, b: &str) -> (equal: bool)
    ensures
        equal == (a@ == b@),
{
    let x = chars_of(a);
    let y = chars_of(b);
    if x.len() != y.len() {
        return false;
    }
    let mut i: usize = 0;
    while i < x.len()
        invariant
            i <= x@.len(),
            x@.len() == y@.len(),
            x@ == a@,
            y@ == b@,
            x@.take(i as int) == y@.take(i as int),
        decreases x@.len() - i,
    {
        if x[i] != y[i] {
            return false;
        }
        proof {
            assert(x@.take(i as int + 1) == x@.take(i as int).push(x@[i as int]));
            assert(y@.take(i as int + 1) == y@.take(i as int).push(y@[i as int]));
        }
        i += 1;
    }
    proof {
        assert(x@.take(x@.len() as int) == x@);
        assert(y@.take(y@.len() as int) == y@);
    }
    true
}

/// Whether the text holds the character.
pub fn contains_char(s: &str, c: char) -> (found: bool)
    ensures
        found == s@.contains(c),
{
    let chars = chars_of(s);
    let mut i: usize = 0;
    while i < chars.len()
        invariant
            i <= chars@.len(),
            chars@ == s@,
            forall|j: int| 0 <= j < i ==> s@[j] != c,
        decreases chars@.len() - i,
    {
        if chars[i] == c {
            return true;
        }
        i += 1;
    }
    false
}

/// Whether one of the strings is the given text.
pub fn contains_text(strings: &Vec<String>, text: &str) -> (found: bool)
    ensures
        found == texts(strings@).contains(text@),
{
    let mut i: usize = 0;
    while i < strings.len()
        invariant
            i <= strings@.len(),
            forall|j: int| 0 <= j < i ==> texts(strings@)[j] != text@,
        decreases strings@.len() - i,
    {
        if same(strings[i].as_str(), text) {
            assert(texts(strings@)[i as int] == text@);
            return true;
        }
        i += 1;
    }
    false
}

/// The text with the second text behind the first.
pub fn concat2(a: &str, b: &str) -> (s: String)
    ensures
        s@ == a@ + b@,
{
    let mut s = a.to_owned();
    s.append(b);
    s
}

/// The three texts, one behind the other.
pub fn concat3(a: &str, b: &str, c: &str) -> (s: String)
    ensures
        s@ == a@ + b@ + c@,
{
    let mut s = a.to_owned();
    s.append(b);
    s.append(c);
    s
}

/// The pieces of a text between the characters that the predicate picks, in
/// order. There is one piece more than there are such characters.
pub open spec fn split_where(s: Seq<char>, cut: spec_fn(char) -> bool) -> Seq<Seq<char>>
    decreases s.len(),
{
    if s.len() == 0 {
        seq![Seq::<char>::empty()]
    } else {
        let before = split_where(s.drop_last(), cut);
        if cut(s.last()) {
            before.push(Seq::<char>::empty())
        } else {
            before.drop_last().push(before.last().push(s.last()))
        }
    }
}

/// The predicate that picks one character.
pub open spec fn is_char(separator: char) -> spec_fn(char) -> bool {
    |c: char| c == separator
}

/// The pieces of a text between the occurrences of one character.
pub open spec fn split_at_char(s: Seq<char>, separator: char) -> Seq<Seq<char>> {
    split_where(s, is_char(separator))
}

/// The words of a text: its non-empty pieces between whitespace.
pub open spec fn words(s: Seq<char>) -> Seq<Seq<char>> {
    split_where(s, |c: char| char_whitespace(c)).filter(|w: Seq<char>| w.len() > 0)
}

/// The texts in order, with the separator between neighbours.
pub open spec fn join(parts: Seq<Seq<char>>, separator: Seq<char>) -> Seq<char>
    decreases parts.len(),
{
    if parts.len() == 0 {
        Seq::<char>::empty()
    } else if parts.len() == 1 {
        parts[0]
    } else {
        join(parts.drop_last(), separator) + separator + parts.last()
    }
}

/// A split text has at least one piece.
pub proof fn lemma_split_nonempty(s: Seq<char>, cut: spec_fn(char) -> bool)
    ensures
        split_where(s, cut).len() >= 1,
    decreases s.len(),
{
    if s.len() > 0 {
        lemma_split_nonempty(s.drop_last(), cut);
    }
}

/// Splitting at a character and joining with it gives the text back.
pub proof fn lemma_join_undoes_split(s: Seq<char>, separator: char)
    ensures
        join(split_at_char(s, separator), seq![separator]) == s,
    decreases s.len(),
{
    let cut = is_char(separator);
    if s.len() > 0 {
        let t = s.drop_last();
        lemma_join_undoes_split(t, separator);
        lemma_split_nonempty(t, cut);
        let before = split_where(t, cut);
        let sep = seq![separator];
        assert(s == t.push(s.last()));
        if s.last() == separator {
            let after = before.push(Seq::<char>::empty());
            assert(after.drop_last() == before);
            assert(join(after, sep) == join(before, sep) + sep + Seq::<char>::empty());
            assert(join(after, sep) == s);
        } else {
            let after = before.drop_last().push(before.last().push(s.last()));
            if before.len() == 1 {
                assert(after.len() == 1);
                assert(join(after, sep) == before[0].push(s.last()));
            } else {
                assert(after.drop_last() == before.drop_last());
                assert(join(after, sep) == join(before.drop_last(), sep) + sep
                    + before.last().push(s.last()));
                assert(join(before, sep) == join(before.drop_last(), sep) + sep + before.last());
                assert(join(after, sep) == join(before, sep).push(s.last()));
            }
        }
    }
}

proof fn lemma_texts_push(strings: Seq<String>, s: String)
    ensures
        texts(strings.push(s)) == texts(strings).push(s@),
{
    assert(texts(strings.push(s)) =~= texts(strings).push(s@));
}

/// The pieces of a string between the occurrences of one character.
pub fn split_char(s: &str, separator: char) -> (parts: Vec<String>)
    ensures
        texts(parts@) == split_at_char(s@, separator),
        parts@.len() >= 1,
{
    let chars = chars_of(s);
    let mut parts: Vec<String> = Vec::new();
    let mut current = String::new();
    let mut i: usize = 0;
    let ghost cut = is_char(separator);
    proof {
        assert(chars@.take(0) == Seq::<char>::empty());
        assert(texts(parts@).push(current@) =~= seq![Seq::<char>::empty()]);
    }
    while i < chars.len()
        invariant
            i <= chars@.len(),
            chars@ == s@,
            cut == is_char(separator),
            texts(parts@).push(current@) == split_where(chars@.take(i as int), cut),
        decreases chars@.len() - i,
    {
        let c = chars[i];
        let ghost before = split_where(chars@.take(i as int), cut);
        proof {
            assert(chars@.take(i as int + 1).drop_last() == chars@.take(i as int));
            assert(before.drop_last() == texts(parts@));
            assert(before.last() == current@);
        }
        if c == separator {
            proof {
                lemma_texts_push(parts@, current);
            }
            parts.push(current);
            current = String::new();
        } else {
            current.push(c);
        }
        i += 1;
    }
    proof {
        assert(chars@.take(chars@.len() as int) == chars@);
        lemma_texts_push(parts@, current);
    }
    parts.push(current);
    parts
}

/// The words of a string: its non-empty pieces between whitespace.
pub fn split_words(s: &str) -> (parts: Vec<String>)
    ensures
        texts(parts@) == words(s@),
{
    let chars = chars_of(s);
    let mut parts: Vec<String> = Vec::new();
    let mut current = String::new();
    let mut i: usize = 0;
    let ghost cut = |c: char| char_whitespace(c);
    let ghost full = |w: Seq<char>| w.len() > 0;
    let ghost mut done: Seq<Seq<char>> = Seq::empty();
    proof {
        assert(chars@.take(0) == Seq::<char>::empty());
        assert(done.push(current@) =~= seq![Seq::<char>::empty()]);
        reveal(Seq::filter);
        assert(texts(parts@) =~= done.filter(full));
    }
    while i < chars.len()
        invariant
            i <= chars@.len(),
            chars@ == s@,
            cut == (|c: char| char_whitespace(c)),
            full == (|w: Seq<char>| w.len() > 0),
            done.push(current@) == split_where(chars@.take(i as int), cut),
            texts(parts@) == done.filter(full),
        decreases chars@.len() - i,
    {
        let c = chars[i];
        let ghost before = split_where(chars@.take(i as int), cut);
        proof {
            assert(chars@.take(i as int + 1).drop_last() == chars@.take(i as int));
            assert(before.drop_last() == done);
            assert(before.last() == current@);
        }
        if c.is_whitespace() {
            proof {
                lemma_filter_push(done, current@, full);
                lemma_texts_push(parts@, current);
                done = done.push(current@);
            }
            if !current.as_str().is_empty() {
                parts.push(current);
            }
            current = String::new();
        } else {
            current.push(c);
        }
        i += 1;
    }
    proof {
        assert(chars@.take(chars@.len() as int) == chars@);
        lemma_filter_push(done, current@, full);
        lemma_texts_push(parts@, current);
    }
    if !current.as_str().is_empty() {
        parts.push(current);
    }
    parts
}

pub proof fn lemma_filter_push<A>(s: Seq<A>, a: A, keep: spec_fn(A) -> bool)
    ensures
        s.push(a).filter(keep) == if keep(a) {
            s.filter(keep).push(a)
        } else {
            s.filter(keep)
        },
{
    reveal(Seq::filter);
    assert(s.push(a).drop_last() =~= s);
    assert(s.push(a).last() == a);
}

proof fn lemma_join_push(parts: Seq<Seq<char>>, part: Seq<char>, separator: Seq<char>)
    ensures
        join(parts.push(part), separator) == if parts.len() == 0 {
            part
        } else {
            join(parts, separator) + separator + part
        },
{
    assert(parts.push(part).drop_last() =~= parts);
}

/// The strings in order, with the separator between neighbours.
pub fn join_strings(parts: &Vec<String>, separator: &str) -> (s: String)
    ensures
        s@ == join(texts(parts@), separator@),
{
    let mut s = String::new();
    let mut i: usize = 0;
    proof {
        assert(texts(parts@).take(0) == Seq::<Seq<char>>::empty());
    }
    while i < parts.len()
        invariant
            i <= parts@.len(),
            s@ == join(texts(parts@).take(i as int), separator@),
        decreases parts@.len() - i,
    {
        proof {
            let t = texts(parts@);
            assert(t.take(i as int + 1) == t.take(i as int).push(t[i as int]));
            lemma_join_push(t.take(i as int), t[i as int], separator@);
        }
        if i > 0 {
            s.append(separator);
        }
        s.append(parts[i].as_str());
        proof {
            if i == 0 {
                assert(Seq::<char>::empty() + texts(parts@)[0] == texts(parts@)[0]);
            }
        }
        i += 1;
    }
    proof {
        assert(texts(parts@).take(parts@.len() as int) == texts(parts@));
    }
    s
}

/// The position of the first occurrence of a character, or the length.
pub open spec fn first_index(s: Seq<char>, c: char) -> nat
    decreases s.len(),
{
    if s.len() == 0 || s[0] == c {
        0
    } else {
        1 + first_index(s.drop_first(), c)
    }
}

/// What stands before and after the first occurrence of a character.
pub open spec fn split_first(s: Seq<char>, separator: char) -> Option<(Seq<char>, Seq<char>)> {
    let i = first_index(s, separator);
    if i < s.len() {
        Some((s.take(i as int), s.skip(i as int + 1)))
    } else {
        None
    }
}

proof fn lemma_first_index(s: Seq<char>, c: char, i: int)
    requires
        0 <= i <= s.len(),
        forall|j: int| 0 <= j < i ==> s[j] != c,
        i < s.len() ==> s[i] == c,
    ensures
        first_index(s, c) == i,
    decreases i,
{
    if i > 0 {
        let t = s.drop_first();
        assert forall|j: int| 0 <= j < i - 1 implies t[j] != c by {
            assert(t[j] == s[j + 1]);
        }
        if i < s.len() {
            assert(t[i - 1] == s[i]);
        }
        lemma_first_index(t, c, i - 1);
    }
}

/// What stands before and after the first occurrence of a character.
pub fn split_once(s: &str, separator: char) -> (parts: Option<(String, String)>)
    ensures
        match parts {
            Some((before, after)) => split_first(s@, separator) == Some((before@, after@)),
            None => split_first(s@, separator) is None,
        },
{
    let chars = chars_of(s);
    let mut i: usize = 0;
    while i < chars.len() && chars[i] != separator
        invariant
            i <= chars@.len(),
            chars@ == s@,
            forall|j: int| 0 <= j < i ==> s@[j] != separator,
        decreases chars@.len() - i,
    {
        i += 1;
    }
    proof {
        lemma_first_index(s@, separator, i as int);
    }
    if i < chars.len() {
        let before = string_of(vstd::slice::slice_subrange(chars.as_slice(), 0, i));
        let after = string_of(vstd::slice::slice_subrange(chars.as_slice(), i + 1, chars.len()));
        assert(before@ == s@.take(i as int));
        assert(after@ == s@.skip(i + 1));
        Some((before, after))
    } else {
        None
    }
}

/// A text without its leading whitespace.
pub open spec fn trim_start(s: Seq<char>) -> Seq<char>
    decreases s.len(),
{
    if s.len() > 0 && char_whitespace(s[0]) {
        trim_start(s.drop_first())
    } else {
        s
    }
}

/// A text without its trailing whitespace.
pub open spec fn trim_end(s: Seq<char>) -> Seq<char>
    decreases s.len(),
{
    if s.len() > 0 && char_whitespace(s.last()) {
        trim_end(s.drop_last())
    } else {
        s
    }
}

/// A text without its leading and trailing whitespace.
pub open spec fn trimmed(s: Seq<char>) -> Seq<char> {
    trim_end(trim_start(s))
}

/// The string without its leading and trailing whitespace.
pub fn trim(s: &str) -> (t: String)
    ensures
        t@ == trimmed(s@),
{
    let chars = chars_of(s);
    let mut from: usize = 0;
    proof {
        assert(chars@.skip(0) == chars@);
    }
    while from < chars.len() && chars[from].is_whitespace()
        invariant
            from <= chars@.len(),
            chars@ == s@,
            trim_start(s@) == trim_start(chars@.skip(from as int)),
        decreases chars@.len() - from,
    {
        proof {
            assert(chars@.skip(from as int).drop_first() == chars@.skip(from as int + 1));
        }
        from += 1;
    }
    let mut to: usize = chars.len();
    let ghost start = chars@.skip(from as int);
    proof {
        assert(trim_start(s@) == start);
        assert(chars@.subrange(from as int, to as int) == start);
    }
    while to > from && chars[to - 1].is_whitespace()
        invariant
            from <= to <= chars@.len(),
            trim_end(start) == trim_end(chars@.subrange(from as int, to as int)),
        decreases to,
    {
        proof {
            assert(chars@.subrange(from as int, to as int).drop_last() == chars@.subrange(
                from as int,
                to - 1,
            ));
        }
        to -= 1;
    }
    string_of(vstd::slice::slice_subrange(chars.as_slice(), from, to))
}

/// Whether the text begins with the prefix.
pub open spec fn starts_with(s: Seq<char>, prefix: Seq<char>) -> bool {
    prefix.len() <= s.len() && s.take(prefix.len() as int) == prefix
}

/// What stands behind the prefix, where the text begins with it.
pub fn strip_prefix(s: &str, prefix: &str) -> (rest: Option<String>)
    ensures
        match rest {
            Some(rest) => starts_with(s@, prefix@) && rest@ == s@.skip(prefix@.len() as int),
            None => !starts_with(s@, prefix@),
        },
{
    let chars = chars_of(s);
    let head = chars_of(prefix);
    if head.len() > chars.len() {
        return None;
    }
    let mut i: usize = 0;
    while i < head.len()
        invariant
            i <= head@.len() <= chars@.len(),
            chars@ == s@,
            head@ == prefix@,
            forall|j: int| 0 <= j < i ==> chars@[j] == head@[j],
        decreases head@.len() - i,
    {
        if chars[i] != head[i] {
            proof {
                assert(s@.take(prefix@.len() as int)[i as int] != prefix@[i as int]);
            }
            return None;
        }
        i += 1;
    }
    proof {
        assert(s@.take(prefix@.len() as int) =~= prefix@);
    }
    let rest = string_of(vstd::slice::slice_subrange(chars.as_slice(), head.len(), chars.len()));
    assert(rest@ == s@.skip(prefix@.len() as int));
    Some(rest)
}

/// Whether the pattern stands in the text at the position.
pub open spec fn occurs_at(s: Seq<char>, pattern: Seq<char>, at: int) -> bool {
    0 <= at && at + pattern.len() <= s.len() && s.subrange(at, at + pattern.len()) == pattern
}

/// The pieces of a text between the occurrences of a pattern, found from the
/// left and without overlap.
pub open spec fn split_on(s: Seq<char>, pattern: Seq<char>) -> Seq<Seq<char>>
    decreases s.len(),
{
    if exists|i: int| first_match(s, pattern, i) && pattern.len() > 0 {
        let i = choose|i: int| first_match(s, pattern, i) && pattern.len() > 0;
        seq![s.take(i)] + split_on(s.skip(i + pattern.len()), pattern)
    } else {
        seq![s]
    }
}

/// Whether the pattern stands in the text at the position and nowhere before.
pub open spec fn first_match(s: Seq<char>, pattern: Seq<char>, at: int) -> bool {
    occurs_at(s, pattern, at) && forall|j: int| 0 <= j < at ==> !occurs_at(s, pattern, j)
}

/// Whether the pattern stands in the text at the position.
fn matches_at(chars: &Vec<char>, pattern: &Vec<char>, at: usize) -> (found: bool)
    requires
        at + pattern@.len() <= chars@.len(),
    ensures
        found == occurs_at(chars@, pattern@, at as int),
{
    let length = chars.len();
    let mut i: usize = 0;
    while i < pattern.len()
        invariant
            i <= pattern@.len(),
            length == chars@.len(),
            at + pattern@.len() <= length,
            forall|j: int| 0 <= j < i ==> chars@[at + j] == pattern@[j],
        decreases pattern@.len() - i,
    {
        if chars[at + i] != pattern[i] {
            proof {
                assert(chars@.subrange(at as int, at + pattern@.len())[i as int]
                    == chars@[at + i]);
            }
            return false;
        }
        i += 1;
    }
    assert(chars@.subrange(at as int, at + pattern@.len()) =~= pattern@);
    true
}

proof fn lemma_occurs_shift(s: Seq<char>, pattern: Seq<char>, from: int, at: int)
    requires
        0 <= from <= s.len(),
        0 <= at,
    ensures
        occurs_at(s.skip(from), pattern, at) == occurs_at(s, pattern, from + at),
{
    if from + at + pattern.len() <= s.len() {
        assert(s.skip(from).subrange(at, at + pattern.len()) =~= s.subrange(
            from + at,
            from + at + pattern.len(),
        ));
    }
}

/// The pieces of a string between the occurrences of a pattern.
pub fn split_pattern(s: &str, pattern: &str) -> (parts: Vec<String>)
    requires
        pattern@.len() > 0,
    ensures
        texts(parts@) == split_on(s@, pattern@),
{
    let chars = chars_of(s);
    let mark = chars_of(pattern);
    let mut parts: Vec<String> = Vec::new();
    let mut start: usize = 0;
    let mut at: usize = 0;
    proof {
        assert(chars@.skip(0) == chars@);
        assert(texts(parts@) =~= Seq::<Seq<char>>::empty());
        assert(Seq::<Seq<char>>::empty() + split_on(chars@, mark@) =~= split_on(chars@, mark@));
    }
    while at <= chars.len() && mark.len() <= chars.len() - at
        invariant
            chars@ == s@,
            mark@ == pattern@,
            mark@.len() > 0,
            start <= at <= chars@.len(),
            texts(parts@) + split_on(chars@.skip(start as int), mark@) == split_on(
                chars@,
                mark@,
            ),
            forall|j: int| start <= j < at ==> !occurs_at(chars@, mark@, j),
        decreases chars@.len() - at,
    {
        if matches_at(&chars, &mark, at) {
            let piece = string_of(vstd::slice::slice_subrange(chars.as_slice(), start, at));
            proof {
                let tail = chars@.skip(start as int);
                let i = at - start;
                lemma_occurs_shift(chars@, mark@, start as int, i);
                assert forall|j: int| 0 <= j < i implies !occurs_at(tail, mark@, j) by {
                    lemma_occurs_shift(chars@, mark@, start as int, j);
                }
                assert(first_match(tail, mark@, i));
                let k = choose|k: int| first_match(tail, mark@, k) && mark@.len() > 0;
                assert(k == i) by {
                    if k < i {
                        assert(!occurs_at(tail, mark@, k));
                    } else if i < k {
                        assert(!occurs_at(tail, mark@, i));
                    }
                }
                assert(tail.take(i) =~= piece@);
                assert(tail.skip(i + mark@.len()) =~= chars@.skip(at + mark@.len()));
                assert(split_on(tail, mark@) == seq![piece@] + split_on(
                    chars@.skip(at + mark@.len()),
                    mark@,
                ));
                lemma_texts_push(parts@, piece);
                assert(texts(parts@).push(piece@) + split_on(chars@.skip(at + mark@.len()), mark@)
                    =~= texts(parts@) + split_on(tail, mark@));
            }
            parts.push(piece);
            at += mark.len();
            start = at;
        } else {
            at += 1;
        }
    }
    proof {
        let tail = chars@.skip(start as int);
        assert forall|j: int| !first_match(tail, mark@, j) by {
            if occurs_at(tail, mark@, j) {
                lemma_occurs_shift(chars@, mark@, start as int, j);
            }
        }
        assert(split_on(tail, mark@) == seq![tail]);
    }
    let rest = string_of(vstd::slice::slice_subrange(chars.as_slice(), start, chars.len()));
    proof {
        assert(rest@ =~= chars@.skip(start as int));
        lemma_texts_push(parts@, rest);
        assert(texts(parts@).push(rest@) =~= texts(parts@) + seq![rest@]);
    }
    parts.push(rest);
    parts
}

/// Whether a pattern occurs in a text.
pub open spec fn includes_text(s: Seq<char>, pattern: Seq<char>) -> bool {
    exists|at: int| 0 <= at <= s.len() - pattern.len() && #[trigger] occurs_at(s, pattern, at)
}

/// Whether a pattern occurs in a text.
pub fn includes(s: &str, pattern: &str) -> (found: bool)
    ensures
        found == includes_text(s@, pattern@),
{
    let chars = chars_of(s);
    let wanted = chars_of(pattern);
    let length = chars.len();
    let width = wanted.len();
    if width == 0 {
        proof {
            assert(s@.subrange(0, 0) =~= pattern@);
            assert(occurs_at(s@, pattern@, 0));
        }
        return true;
    }
    let mut at: usize = 0;
    while length - at >= width
        invariant
            at <= length,
            0 < width,
            length == chars@.len(),
            width == wanted@.len(),
            chars@ == s@,
            wanted@ == pattern@,
            forall|k: int| 0 <= k < at ==> !#[trigger] occurs_at(s@, pattern@, k),
        decreases length - at,
    {
        let mut i: usize = 0;
        while i < width && chars[at + i] == wanted[i]
            invariant
                i <= width,
                at + width <= length,
                length == chars@.len(),
                width == wanted@.len(),
                chars@ == s@,
                wanted@ == pattern@,
                forall|k: int| 0 <= k < i ==> s@[at + k] == #[trigger] pattern@[k],
            decreases width - i,
        {
            i += 1;
        }
        if i == width {
            proof {
                let part = s@.subrange(at as int, at + width);
                assert forall|k: int| 0 <= k < width implies #[trigger] part[k] == pattern@[k] by {
                    assert(s@[at + k] == pattern@[k]);
                }
                assert(part =~= pattern@);
                assert(occurs_at(s@, pattern@, at as int));
            }
            return true;
        }
        proof {
            if occurs_at(s@, pattern@, at as int) {
                assert(s@.subrange(at as int, at + width)[i as int] == s@[at + i]);
            }
        }
        at += 1;
    }
    false
}

/// The code of a character, with ASCII letters taken as small letters.
pub open spec fn ascii_folded(c: char) -> u32 {
    if 'A' <= c && c <= 'Z' {
        (c as u32 + 32) as u32
    } else {
        c as u32
    }
}

/// Whether two texts are equal but for the case of ASCII letters.
pub open spec fn same_ignoring_case(a: Seq<char>, b: Seq<char>) -> bool {
    a.len() == b.len() && forall|i: int|
        0 <= i < a.len() ==> ascii_folded(#[trigger] a[i]) == ascii_folded(b[i])
}

fn fold_ascii(c: char) -> (code: u32)
    ensures
        code == ascii_folded(c),
{
    if 'A' <= c && c <= 'Z' {
        c as u32 + 32
    } else {
        c as u32
    }
}

/// Whether two strings are equal but for the case of ASCII letters.
pub fn equal_ignoring_case(a: &str, b: &str) -> (equal: bool)
    ensures
        equal == same_ignoring_case(a@, b@),
{
    let x = chars_of(a);
    let y = chars_of(b);
    if x.len() != y.len() {
        return false;
    }
    let mut i: usize = 0;
    while i < x.len()
        invariant
            i <= x@.len(),
            x@.len() == y@.len(),
            x@ == a@,
            y@ == b@,
            forall|j: int| 0 <= j < i ==> ascii_folded(#[trigger] a@[j]) == ascii_folded(b@[j]),
        decreases x@.len() - i,
    {
        if fold_ascii(x[i]) != fold_ascii(y[i]) {
            assert(ascii_folded(a@[i as int]) != ascii_folded(b@[i as int]));
            return false;
        }
        i += 1;
    }
    true
}

/// Whether a text stands before another, character by character in the order
/// of the code points, a text before its own extensions.
pub open spec fn text_before(a: Seq<char>, b: Seq<char>) -> bool
    decreases a.len(),
{
    if b.len() == 0 {
        false
    } else if a.len() == 0 {
        true
    } else if a[0] == b[0] {
        text_before(a.drop_first(), b.drop_first())
    } else {
        (a[0] as u32) < (b[0] as u32)
    }
}

/// Whether one string stands before another in the order of code points.
pub fn before(a: &str, b: &str) -> (less: bool)
    ensures
        less == text_before(a@, b@),
{
    let x = chars_of(a);
    let y = chars_of(b);
    let mut i: usize = 0;
    proof {
        assert(x@.skip(0) == x@);
        assert(y@.skip(0) == y@);
    }
    while i < x.len() && i < y.len()
        invariant
            i <= x@.len(),
            i <= y@.len(),
            x@ == a@,
            y@ == b@,
            text_before(a@, b@) == text_before(x@.skip(i as int), y@.skip(i as int)),
        decreases x@.len() - i,
    {
        proof {
            assert(x@.skip(i as int).drop_first() == x@.skip(i as int + 1));
            assert(y@.skip(i as int).drop_first() == y@.skip(i as int + 1));
        }
        if x[i] != y[i] {
            return (x[i] as u32) < (y[i] as u32);
        }
        i += 1;
    }
    i < y.len()
}

proof fn lemma_code_injective(c: char, d: char)
    ensures
        c as u32 == d as u32 ==> c == d,
{
}

/// The order of texts is total: two different texts are comparable.
pub proof fn lemma_text_before_connected(a: Seq<char>, b: Seq<char>)
    ensures
        a == b || text_before(a, b) || text_before(b, a),
    decreases a.len(),
{
    if a.len() > 0 && b.len() > 0 && a[0] == b[0] {
        lemma_text_before_connected(a.drop_first(), b.drop_first());
        if a.drop_first() == b.drop_first() {
            assert(a =~= seq![a[0]] + a.drop_first());
            assert(b =~= seq![b[0]] + b.drop_first());
        }
    } else if a.len() == 0 && b.len() == 0 {
        assert(a =~= b);
    } else if a.len() > 0 && b.len() > 0 {
        lemma_code_injective(a[0], b[0]);
    }
}

/// No text stands before itself, nor before one that stands before it.
pub proof fn lemma_text_before_asymmetric(a: Seq<char>, b: Seq<char>)
    requires
        text_before(a, b),
    ensures
        !text_before(b, a),
        a != b,
    decreases a.len(),
{
    if a.len() > 0 && b.len() > 0 && a[0] == b[0] {
        lemma_text_before_asymmetric(a.drop_first(), b.drop_first());
    }
}

/// The order of texts is transitive.
pub proof fn lemma_text_before_transitive(a: Seq<char>, b: Seq<char>, c: Seq<char>)
    requires
        text_before(a, b),
        text_before(b, c),
    ensures
        text_before(a, c),
    decreases a.len(),
{
    if a.len() > 0 && b.len() > 0 && c.len() > 0 && a[0] == b[0] && b[0] == c[0] {
        lemma_text_before_transitive(a.drop_first(), b.drop_first(), c.drop_first());
    }
}

/// The decimal digit of a number below ten.
pub open spec fn decimal_digit(d: nat) -> char {
    (48 + d) as char
}

/// A number in decimal, without leading zeros.
pub open spec fn decimal(n: nat) -> Seq<char>
    decreases n,
{
    if n < 10 {
        seq![decimal_digit(n)]
    } else {
        decimal(n / 10).push(decimal_digit(n % 10))
    }
}

/// A text of zeros.
pub open spec fn zeros(n: nat) -> Seq<char> {
    Seq::new(n, |i: int| '0')
}

/// A text filled up with zeros on the left to at least the given length.
pub open spec fn zero_padded(s: Seq<char>, width: nat) -> Seq<char> {
    if s.len() < width {
        zeros((width - s.len()) as nat) + s
    } else {
        s
    }
}

/// A number in decimal.
pub fn decimal_string(n: u64) -> (s: String)
    ensures
        s@ == decimal(n as nat),
    decreases n,
{
    let mut s = if n < 10 {
        String::new()
    } else {
        decimal_string(n / 10)
    };
    let digit = (48u8 + (n % 10) as u8) as char;
    s.push(digit);
    proof {
        if n < 10 {
            assert(s@ =~= seq![decimal_digit(n as nat)]);
        }
    }
    s
}

/// A number in decimal, filled up with zeros to at least the given width.
pub fn padded_decimal(n: u64, width: usize) -> (s: String)
    ensures
        s@ == zero_padded(decimal(n as nat), width as nat),
{
    let digits = decimal_string(n);
    let count = chars_of(digits.as_str()).len();
    let mut s = String::new();
    let mut i: usize = count;
    while i < width
        invariant
            count <= i,
            count < width ==> i <= width,
            count >= width ==> i == count,
            s@.len() == i - count,
            forall|j: int| 0 <= j < s@.len() ==> s@[j] == '0',
        decreases width - i,
    {
        s.push('0');
        i += 1;
    }
    let ghost fill = s@;
    s.append(digits.as_str());
    proof {
        if count < width {
            assert(fill =~= zeros((width - count) as nat));
        }
        assert(s@ =~= zero_padded(decimal(n as nat), width as nat));
    }
    s
}

/// The small hexadecimal digit of a number below sixteen.
pub open spec fn hex_digit(d: nat) -> char {
    if d < 10 {
        (48 + d) as char
    } else {
        (87 + d) as char
    }
}

/// Bytes in hexadecimal, two small digits each.
pub open spec fn hex(bytes: Seq<u8>) -> Seq<char>
    decreases bytes.len(),
{
    if bytes.len() == 0 {
        Seq::<char>::empty()
    } else {
        hex(bytes.drop_last()).push(hex_digit(bytes.last() as nat / 16)).push(
            hex_digit(bytes.last() as nat % 16),
        )
    }
}

fn hex_char(d: u8) -> (c: char)
    requires
        d < 16,
    ensures
        c == hex_digit(d as nat),
{
    if d < 10 {
        (48u8 + d) as char
    } else {
        (87u8 + d) as char
    }
}

/// Bytes in hexadecimal, two small digits each.
pub fn hex_digest(digest: &[u8]) -> (s: String)
    ensures
        s@ == hex(digest@),
{
    let mut s = String::new();
    let mut i: usize = 0;
    while i < digest.len()
        invariant
            i <= digest@.len(),
            s@ == hex(digest@.take(i as int)),
        decreases digest@.len() - i,
    {
        let byte = digest[i];
        s.push(hex_char(byte / 16));
        s.push(hex_char(byte % 16));
        proof {
            assert(digest@.take(i as int + 1).drop_last() == digest@.take(i as int));
        }
        i += 1;
    }
    proof {
        assert(digest@.take(digest@.len() as int) == digest@);
    }
    s
}

/// Hexadecimal has two digits for every byte, and different bytes have
/// different digits.
pub proof fn lemma_hex_injective(a: Seq<u8>, b: Seq<u8>)
    ensures
        hex(a).len() == 2 * a.len(),
        hex(a) == hex(b) ==> a == b,
    decreases a.len(),
{
    lemma_hex_length(a);
    lemma_hex_length(b);
    if hex(a) == hex(b) {
        if a.len() == 0 {
            assert(a =~= b);
        } else {
            let x = a.last() as nat;
            let y = b.last() as nat;
            let ha = hex(a.drop_last()).push(hex_digit(x / 16));
            let hb = hex(b.drop_last()).push(hex_digit(y / 16));
            assert(ha.push(hex_digit(x % 16)).drop_last() =~= ha);
            assert(hb.push(hex_digit(y % 16)).drop_last() =~= hb);
            assert(hex(a).last() == hex_digit(x % 16));
            assert(hex(b).last() == hex_digit(y % 16));
            assert(ha == hb);
            assert(ha.last() == hex_digit(x / 16));
            assert(hb.last() == hex_digit(y / 16));
            assert(ha.drop_last() =~= hex(a.drop_last()));
            assert(hb.drop_last() =~= hex(b.drop_last()));
            lemma_hex_injective(a.drop_last(), b.drop_last());
            assert(x % 16 == y % 16 && x / 16 == y / 16);
            assert(a =~= a.drop_last().push(a.last()));
            assert(b =~= b.drop_last().push(b.last()));
        }
    }
}

proof fn lemma_hex_length(a: Seq<u8>)
    ensures
        hex(a).len() == 2 * a.len(),
    decreases a.len(),
{
    if a.len() > 0 {
        lemma_hex_length(a.drop_last());
    }
}

proof fn lemma_split_at_cut(a: Seq<char>, c: char, b: Seq<char>, cut: spec_fn(char) -> bool)
    requires
        cut(c),
    ensures
        split_where(a.push(c) + b, cut) == split_where(a, cut) + split_where(b, cut),
    decreases b.len(),
{
    lemma_split_nonempty(b, cut);
    if b.len() == 0 {
        assert(a.push(c) + b =~= a.push(c));
        assert(a.push(c).drop_last() =~= a);
        assert(split_where(a, cut) + split_where(b, cut) =~= split_where(a, cut).push(
            Seq::<char>::empty(),
        ));
    } else {
        let front = b.drop_last();
        let all = a.push(c) + b;
        lemma_split_at_cut(a, c, front, cut);
        lemma_split_nonempty(front, cut);
        assert(all.drop_last() =~= a.push(c) + front);
        assert(all.last() == b.last());
        let left = split_where(a, cut);
        let right = split_where(front, cut);
        if cut(b.last()) {
            assert((left + right).push(Seq::<char>::empty()) =~= left + right.push(
                Seq::<char>::empty(),
            ));
        } else {
            let grown = right.last().push(b.last());
            assert((left + right).last() == right.last());
            assert((left + right).drop_last().push(grown) =~= left + right.drop_last().push(grown));
        }
    }
}

proof fn lemma_split_whole(s: Seq<char>, cut: spec_fn(char) -> bool)
    requires
        forall|i: int| 0 <= i < s.len() ==> !cut(#[trigger] s[i]),
    ensures
        split_where(s, cut) == seq![s],
    decreases s.len(),
{
    if s.len() > 0 {
        let front = s.drop_last();
        assert forall|i: int| 0 <= i < front.len() implies !cut(#[trigger] front[i]) by {
            assert(front[i] == s[i]);
        }
        lemma_split_whole(front, cut);
        assert(!cut(s[s.len() - 1]));
        assert(seq![front].drop_last().push(front.push(s.last())) =~= seq![s]) by {
            assert(front.push(s.last()) =~= s);
        }
    } else {
        assert(s =~= Seq::<char>::empty());
    }
}

/// Splitting a text takes nothing out of its pieces and leaves no separator in
/// them: a text without the character is its own only piece, and where the
/// character stands, the pieces before it and those after it are the pieces of
/// what stands before and of what stands after.
pub proof fn law_splitting_cuts_at_the_separator(a: Seq<char>, b: Seq<char>, separator: char)
    ensures
        split_at_char(a.push(separator) + b, separator) == split_at_char(a, separator)
            + split_at_char(b, separator),
        !a.contains(separator) ==> split_at_char(a, separator) == seq![a],
        join(split_at_char(a, separator), seq![separator]) == a,
{
    let cut = is_char(separator);
    lemma_split_at_cut(a, separator, b, cut);
    lemma_join_undoes_split(a, separator);
    if !a.contains(separator) {
        assert forall|i: int| 0 <= i < a.len() implies !cut(#[trigger] a[i]) by {
            assert(a.contains(a[i]));
        }
        lemma_split_whole(a, cut);
    }
}

/// Whitespace parts words and belongs to none: a text that is not empty and holds
/// no whitespace is one word, an empty one has none, and a whitespace character
/// parts the words before it from those after it.
pub proof fn law_whitespace_parts_words(a: Seq<char>, c: char, b: Seq<char>)
    ensures
        char_whitespace(c) ==> words(a.push(c) + b) == words(a) + words(b),
        (forall|i: int| 0 <= i < a.len() ==> !char_whitespace(#[trigger] a[i])) ==> words(a)
            == if a.len() == 0 {
            Seq::<Seq<char>>::empty()
        } else {
            seq![a]
        },
{
    let cut = |c: char| char_whitespace(c);
    let full = |w: Seq<char>| w.len() > 0;
    if char_whitespace(c) {
        lemma_split_at_cut(a, c, b, cut);
        Seq::filter_distributes_over_add(split_where(a, cut), split_where(b, cut), full);
    }
    if forall|i: int| 0 <= i < a.len() ==> !char_whitespace(#[trigger] a[i]) {
        assert forall|i: int| 0 <= i < a.len() implies !cut(#[trigger] a[i]) by {}
        lemma_split_whole(a, cut);
        lemma_filter_push(Seq::<Seq<char>>::empty(), a, full);
        reveal(Seq::filter);
        assert(Seq::<Seq<char>>::empty().filter(full) =~= Seq::<Seq<char>>::empty());
        assert(seq![a] =~= Seq::<Seq<char>>::empty().push(a));
    }
}

proof fn lemma_pieces_are_uncut(s: Seq<char>, cut: spec_fn(char) -> bool, k: int, i: int)
    requires
        0 <= k < split_where(s, cut).len(),
        0 <= i < split_where(s, cut)[k].len(),
    ensures
        !cut(split_where(s, cut)[k][i]),
    decreases s.len(),
{
    if s.len() > 0 {
        let before = split_where(s.drop_last(), cut);
        lemma_split_nonempty(s.drop_last(), cut);
        if cut(s.last()) {
            if k < before.len() {
                lemma_pieces_are_uncut(s.drop_last(), cut, k, i);
            }
        } else if k < before.len() - 1 {
            lemma_pieces_are_uncut(s.drop_last(), cut, k, i);
        } else if i < before.last().len() {
            lemma_pieces_are_uncut(s.drop_last(), cut, k, i);
        }
    }
}

/// No word is empty, and none holds whitespace.
pub proof fn law_words_hold_no_whitespace(s: Seq<char>)
    ensures
        are_words(words(s)),
{
    let cut = |c: char| char_whitespace(c);
    let full = |w: Seq<char>| w.len() > 0;
    let pieces = split_where(s, cut);
    assert forall|k: int| 0 <= k < words(s).len() implies is_word(#[trigger] words(s)[k]) by {
        pieces.lemma_filter_pred(full, k);
        lemma_filtered_from(pieces, full, k);
        let at = choose|at: int| 0 <= at < pieces.len() && pieces[at] == words(s)[k];
        assert forall|i: int| 0 <= i < words(s)[k].len() implies !char_whitespace(
            #[trigger] words(s)[k][i],
        ) by {
            lemma_pieces_are_uncut(s, cut, at, i);
        }
    }
}

proof fn lemma_filtered_from<A>(s: Seq<A>, keep: spec_fn(A) -> bool, k: int)
    requires
        0 <= k < s.filter(keep).len(),
    ensures
        s.contains(s.filter(keep)[k]),
    decreases s.len(),
{
    reveal(Seq::filter);
    if s.len() > 0 {
        let front = s.drop_last();
        if k < front.filter(keep).len() {
            lemma_filtered_from(front, keep, k);
            let at = choose|at: int| 0 <= at < front.len() && front[at] == front.filter(keep)[k];
            assert(s[at] == s.filter(keep)[k]);
        } else {
            assert(s[s.len() - 1] == s.filter(keep)[k]);
        }
    }
}

/// Whether a text is not empty and holds no whitespace.
pub open spec fn is_word(s: Seq<char>) -> bool {
    s.len() > 0 && forall|i: int| 0 <= i < s.len() ==> !char_whitespace(#[trigger] s[i])
}

/// Whether every text is a word.
pub open spec fn are_words(parts: Seq<Seq<char>>) -> bool {
    forall|k: int| 0 <= k < parts.len() ==> is_word(#[trigger] parts[k])
}

/// Words that are written with one space between neighbours can be told apart
/// again, by their whitespace or by that space alone.
pub proof fn law_joined_words_come_apart(parts: Seq<Seq<char>>)
    requires
        are_words(parts),
    ensures
        words(join(parts, seq![' '])) == parts,
        parts.len() > 0 ==> split_at_char(join(parts, seq![' ']), ' ') == parts,
        parts.len() == 0 ==> join(parts, seq![' ']).len() == 0,
    decreases parts.len(),
{
    let nothing = Seq::<char>::empty();
    if parts.len() == 0 {
        law_whitespace_parts_words(nothing, ' ', nothing);
        assert(parts =~= Seq::<Seq<char>>::empty());
    } else {
        let last = parts.last();
        assert(is_word(parts[parts.len() - 1]));
        law_whitespace_parts_words(last, ' ', nothing);
        assert(!last.contains(' ')) by {
            if last.contains(' ') {
                let i = choose|i: int| 0 <= i < last.len() && last[i] == ' ';
                assert(char_whitespace(last[i]));
            }
        }
        law_splitting_cuts_at_the_separator(last, nothing, ' ');
        if parts.len() == 1 {
            assert(parts =~= seq![last]);
        } else {
            let front = parts.drop_last();
            assert forall|k: int| 0 <= k < front.len() implies is_word(#[trigger] front[k]) by {
                assert(front[k] == parts[k]);
            }
            law_joined_words_come_apart(front);
            let before = join(front, seq![' ']);
            assert(join(parts, seq![' ']) =~= before.push(' ') + last);
            law_whitespace_parts_words(before, ' ', last);
            law_splitting_cuts_at_the_separator(before, last, ' ');
            assert(front + seq![last] =~= parts);
        }
    }
}

/// Whether a text is written as joined words are: its only whitespace is single
/// spaces, and none of them stands at either end.
pub open spec fn is_single_spaced(s: Seq<char>) -> bool {
    &&& forall|i: int| 0 <= i < s.len() && char_whitespace(#[trigger] s[i]) ==> s[i] == ' '
    &&& forall|i: int, j: int|
        0 <= i < s.len() && j == i + 1 && #[trigger] s[i] == ' ' ==> j < s.len()
            && #[trigger] s[j] != ' '
    &&& s.len() > 0 ==> s[0] != ' ' && s.last() != ' '
}

proof fn lemma_split_same(s: Seq<char>, cut: spec_fn(char) -> bool, other: spec_fn(char) -> bool)
    requires
        forall|i: int| 0 <= i < s.len() ==> cut(#[trigger] s[i]) == other(s[i]),
    ensures
        split_where(s, cut) == split_where(s, other),
    decreases s.len(),
{
    if s.len() > 0 {
        let front = s.drop_last();
        assert forall|i: int| 0 <= i < front.len() implies cut(#[trigger] front[i]) == other(
            front[i],
        ) by {
            assert(front[i] == s[i]);
        }
        assert(cut(s[s.len() - 1]) == other(s[s.len() - 1]));
        lemma_split_same(front, cut, other);
    }
}

proof fn lemma_single_spaced_pieces(s: Seq<char>)
    requires
        s.len() > 0,
        s[0] != ' ',
        forall|i: int, j: int|
            0 <= i && j == i + 1 && j < s.len() && #[trigger] s[i] == ' ' ==> #[trigger] s[j]
                != ' ',
    ensures
        forall|k: int|
            0 <= k < split_at_char(s, ' ').len() - 1 ==> (#[trigger] split_at_char(s, ' ')[k]).len()
                > 0,
        split_at_char(s, ' ').len() > 0,
        split_at_char(s, ' ').last().len() == 0 <==> s.last() == ' ',
    decreases s.len(),
{
    let cut = is_char(' ');
    let front = s.drop_last();
    lemma_split_nonempty(front, cut);
    let before = split_where(front, cut);
    let after = split_where(s, cut);
    if front.len() == 0 {
        assert(front =~= Seq::<char>::empty());
        assert(before =~= seq![Seq::<char>::empty()]);
    } else {
        assert forall|i: int, j: int|
            0 <= i && j == i + 1 && j < front.len() && #[trigger] front[i] == ' ' implies
        #[trigger] front[j] != ' ' by {
            assert(s[i] == front[i] && s[j] == front[j]);
        }
        lemma_single_spaced_pieces(front);
        assert(front.last() == s[s.len() - 2]);
        assert(s.last() == s[s.len() - 1]);
        assert forall|k: int| 0 <= k < after.len() - 1 implies (#[trigger] after[k]).len() > 0 by {
            assert(after[k] == before[k]);
        }
    }
}

/// A text whose only whitespace is single spaces between its words is not changed
/// by taking it apart into words and joining those again.
pub proof fn law_single_spaced_texts_are_kept(s: Seq<char>)
    requires
        is_single_spaced(s),
    ensures
        join(words(s), seq![' ']) == s,
{
    let white = |c: char| char_whitespace(c);
    let full = |w: Seq<char>| w.len() > 0;
    let nothing = Seq::<char>::empty();
    if s.len() == 0 {
        law_whitespace_parts_words(s, ' ', nothing);
        assert(s =~= nothing);
    } else {
        assert forall|i: int| 0 <= i < s.len() implies white(#[trigger] s[i]) == is_char(' ')(
            s[i],
        ) by {
            assert(char_whitespace(' '));
        }
        lemma_split_same(s, white, is_char(' '));
        lemma_single_spaced_pieces(s);
        let pieces = split_at_char(s, ' ');
        assert forall|k: int| 0 <= k < pieces.len() implies full(#[trigger] pieces[k]) by {
            if k == pieces.len() - 1 {
                assert(pieces[k] == pieces.last());
            }
        }
        lemma_filter_all(pieces, full);
        lemma_join_undoes_split(s, ' ');
    }
}

proof fn lemma_filter_all<A>(s: Seq<A>, keep: spec_fn(A) -> bool)
    requires
        forall|k: int| 0 <= k < s.len() ==> keep(#[trigger] s[k]),
    ensures
        s.filter(keep) == s,
    decreases s.len(),
{
    reveal(Seq::filter);
    if s.len() > 0 {
        let front = s.drop_last();
        assert forall|k: int| 0 <= k < front.len() implies keep(#[trigger] front[k]) by {
            assert(front[k] == s[k]);
        }
        lemma_filter_all(front, keep);
        assert(keep(s[s.len() - 1]));
        assert(front.push(s.last()) =~= s);
    }
}

proof fn lemma_trim_start(s: Seq<char>) -> (from: int)
    ensures
        0 <= from <= s.len(),
        trim_start(s) == s.skip(from),
        forall|i: int| 0 <= i < from ==> char_whitespace(#[trigger] s[i]),
        from < s.len() ==> !char_whitespace(s[from]),
    decreases s.len(),
{
    if s.len() > 0 && char_whitespace(s[0]) {
        let rest = s.drop_first();
        let from = lemma_trim_start(rest);
        assert(rest.skip(from) =~= s.skip(from + 1));
        assert forall|i: int| 0 <= i < from + 1 implies char_whitespace(#[trigger] s[i]) by {
            if i > 0 {
                assert(rest[i - 1] == s[i]);
            }
        }
        if from + 1 < s.len() {
            assert(rest[from] == s[from + 1]);
        }
        from + 1
    } else {
        assert(s.skip(0) =~= s);
        0
    }
}

proof fn lemma_trim_end(s: Seq<char>) -> (to: int)
    ensures
        0 <= to <= s.len(),
        trim_end(s) == s.take(to),
        forall|i: int| to <= i < s.len() ==> char_whitespace(#[trigger] s[i]),
        to > 0 ==> !char_whitespace(s[to - 1]),
    decreases s.len(),
{
    if s.len() > 0 && char_whitespace(s.last()) {
        let rest = s.drop_last();
        let to = lemma_trim_end(rest);
        assert(rest.take(to) =~= s.take(to));
        assert forall|i: int| to <= i < s.len() implies char_whitespace(#[trigger] s[i]) by {
            if i < rest.len() {
                assert(rest[i] == s[i]);
            }
        }
        to
    } else {
        assert(s.take(s.len() as int) =~= s);
        s.len() as int
    }
}

/// Trimming takes whitespace from both ends and nothing else: the text stands in
/// one piece between two runs of whitespace, and what is left neither begins nor
/// ends with whitespace. So a text that does neither is kept as it is.
pub proof fn law_trimming_takes_whitespace_only(s: Seq<char>)
    ensures
        exists|from: int, to: int|
            0 <= from <= to <= s.len() && trimmed(s) == #[trigger] s.subrange(from, to) && (forall|
                i: int,
            |
                (0 <= i < from || to <= i < s.len()) ==> char_whitespace(#[trigger] s[i])),
        trimmed(s).len() > 0 ==> !char_whitespace(trimmed(s)[0]) && !char_whitespace(
            trimmed(s).last(),
        ),
        s.len() == 0 || (!char_whitespace(s[0]) && !char_whitespace(s.last())) ==> trimmed(s) == s,
{
    let from = lemma_trim_start(s);
    let rest = s.skip(from);
    let kept = lemma_trim_end(rest);
    let to = from + kept;
    assert(rest.take(kept) =~= s.subrange(from, to));
    assert forall|i: int| (0 <= i < from || to <= i < s.len()) implies char_whitespace(
        #[trigger] s[i],
    ) by {
        if i >= to {
            assert(rest[i - from] == s[i]);
        }
    }
    if kept > 0 {
        assert(rest[0] == s[from]);
        assert(trimmed(s)[0] == s[from]);
        assert(trimmed(s).last() == rest[kept - 1]);
    }
}

/// A text that holds a character is split at the first one: what stands before
/// holds none, and the two parts with the character between them are the text.
/// A text that holds none is not split.
pub proof fn law_texts_are_split_at_the_first(s: Seq<char>, separator: char)
    ensures
        split_first(s, separator) is Some <==> s.contains(separator),
        split_first(s, separator) matches Some((head, tail)) ==> head.push(separator) + tail == s
            && !head.contains(separator),
{
    if s.contains(separator) {
        let at = lemma_first_at(s, separator);
        lemma_first_index(s, separator, at);
        let head = s.take(at);
        assert(head.push(separator) + s.skip(at + 1) =~= s);
        assert(!head.contains(separator)) by {
            if head.contains(separator) {
                let j = choose|j: int| 0 <= j < head.len() && head[j] == separator;
                assert(s[j] == separator);
            }
        }
    } else {
        assert forall|j: int| 0 <= j < s.len() implies s[j] != separator by {
            assert(s.contains(s[j]));
        }
        lemma_first_index(s, separator, s.len() as int);
    }
}

proof fn lemma_first_at(s: Seq<char>, c: char) -> (at: int)
    requires
        s.contains(c),
    ensures
        0 <= at < s.len(),
        s[at] == c,
        forall|j: int| 0 <= j < at ==> s[j] != c,
    decreases s.len(),
{
    let front = s.drop_last();
    if front.contains(c) {
        let at = lemma_first_at(front, c);
        assert(s[at] == front[at]);
        assert forall|j: int| 0 <= j < at implies s[j] != c by {
            assert(s[j] == front[j]);
        }
        at
    } else {
        let i = choose|i: int| 0 <= i < s.len() && s[i] == c;
        if i < front.len() {
            assert(front[i] == c);
        }
        assert forall|j: int| 0 <= j < s.len() - 1 implies s[j] != c by {
            assert(front[j] == s[j]);
            assert(front.contains(front[j]));
        }
        s.len() - 1
    }
}

/// The code of a small hexadecimal digit as the number that it stands for.
pub open spec fn hex_value(c: char) -> int {
    if '0' <= c <= '9' {
        c as int - '0' as int
    } else {
        c as int - 'a' as int + 10
    }
}

/// Hexadecimal has two digits for each byte, in the order of the bytes, the first
/// for its sixteens. The digits above nine are small letters.
pub proof fn law_hex_can_be_read_back(bytes: Seq<u8>)
    ensures
        hex(bytes).len() == 2 * bytes.len(),
        forall|i: int|
            0 <= i < hex(bytes).len() ==> ('0' <= (#[trigger] hex(bytes)[i]) <= '9' || 'a'
                <= hex(bytes)[i] <= 'f'),
        forall|i: int|
            0 <= i < bytes.len() ==> 16 * hex_value(hex(bytes)[2 * i]) + hex_value(
                hex(bytes)[2 * i + 1],
            ) == #[trigger] bytes[i],
    decreases bytes.len(),
{
    lemma_hex_length(bytes);
    if bytes.len() > 0 {
        let front = bytes.drop_last();
        law_hex_can_be_read_back(front);
        let all = hex(bytes);
        let before = hex(front);
        assert forall|i: int| 0 <= i < all.len() implies ('0' <= (#[trigger] all[i]) <= '9' || 'a'
            <= all[i] <= 'f') by {
            if i < before.len() {
                assert(all[i] == before[i]);
            }
        }
        assert forall|i: int| 0 <= i < bytes.len() implies 16 * hex_value(all[2 * i]) + hex_value(
            all[2 * i + 1],
        ) == #[trigger] bytes[i] by {
            if i < front.len() {
                assert(front[i] == bytes[i]);
                assert(all[2 * i] == before[2 * i]);
                assert(all[2 * i + 1] == before[2 * i + 1]);
            }
        }
    }
}

/// Padding adds zeros on the left and nothing else, and only as many as it takes
/// to reach the width.
pub proof fn law_padding_adds_zeros(s: Seq<char>, width: nat)
    ensures
        zero_padded(s, width).len() == if s.len() < width {
            width
        } else {
            s.len()
        },
        zero_padded(s, width).skip(zero_padded(s, width).len() - s.len()) == s,
        forall|i: int|
            0 <= i < zero_padded(s, width).len() - s.len() ==> #[trigger] zero_padded(s, width)[i]
                == '0',
{
    assert(zero_padded(s, width).skip(zero_padded(s, width).len() - s.len()) =~= s);
}

/// Letters are compared without their case, and only letters: two texts that are
/// the same without the case of letters are as long, and where they differ, the
/// one has the capital and the other the small form of one letter. The relation
/// goes both ways, and a text is the same as itself.
pub proof fn law_case_does_not_matter(a: Seq<char>, b: Seq<char>)
    ensures
        same_ignoring_case(a, a),
        same_ignoring_case(a, b) <==> same_ignoring_case(b, a),
        same_ignoring_case(a, b) <==> a.len() == b.len() && forall|i: int|
            0 <= i < a.len() ==> (#[trigger] a[i] == b[i] || ('A' <= a[i] <= 'Z' && b[i] as u32
                == a[i] as u32 + 32) || ('A' <= b[i] <= 'Z' && a[i] as u32 == b[i] as u32 + 32)),
{
    if same_ignoring_case(a, b) {
        assert forall|i: int| 0 <= i < b.len() implies ascii_folded(#[trigger] b[i])
            == ascii_folded(a[i]) by {
            assert(ascii_folded(a[i]) == ascii_folded(b[i]));
        }
        assert forall|i: int| 0 <= i < a.len() implies (#[trigger] a[i] == b[i] || ('A' <= a[i]
            <= 'Z' && b[i] as u32 == a[i] as u32 + 32) || ('A' <= b[i] <= 'Z' && a[i] as u32
            == b[i] as u32 + 32)) by {
            assert(ascii_folded(a[i]) == ascii_folded(b[i]));
            lemma_code_injective(a[i], b[i]);
        }
    }
    if same_ignoring_case(b, a) {
        assert forall|i: int| 0 <= i < a.len() implies ascii_folded(#[trigger] a[i])
            == ascii_folded(b[i]) by {
            assert(ascii_folded(b[i]) == ascii_folded(a[i]));
        }
    }
}

/// The first characters that differ decide which of two texts stands before the
/// other, and a text stands before each text that it begins.
pub proof fn law_the_first_difference_decides(common: Seq<char>, a: Seq<char>, b: Seq<char>)
    ensures
        text_before(common + a, common + b) <==> text_before(a, b),
        b.len() > 0 ==> text_before(common, common + b),
        !text_before(common, common),
        a.len() > 0 && b.len() > 0 && a[0] != b[0] ==> (text_before(a, b) <==> (a[0] as u32)
            < b[0] as u32),
    decreases common.len(),
{
    if common.len() == 0 {
        assert(common + a =~= a);
        assert(common + b =~= b);
    } else {
        let rest = common.drop_first();
        law_the_first_difference_decides(rest, a, b);
        assert((common + a).drop_first() =~= rest + a);
        assert((common + b).drop_first() =~= rest + b);
    }
}

/// Texts that are written with a character between neighbours can be told apart
/// again by that character, where none of them holds it.
pub proof fn law_joined_texts_come_apart(parts: Seq<Seq<char>>, separator: char)
    requires
        parts.len() > 0,
        forall|k: int| 0 <= k < parts.len() ==> !(#[trigger] parts[k]).contains(separator),
    ensures
        split_at_char(join(parts, seq![separator]), separator) == parts,
    decreases parts.len(),
{
    let last = parts.last();
    let sep = seq![separator];
    assert(!parts[parts.len() - 1].contains(separator));
    law_splitting_cuts_at_the_separator(last, last, separator);
    if parts.len() == 1 {
        assert(parts =~= seq![last]);
    } else {
        let front = parts.drop_last();
        assert forall|k: int| 0 <= k < front.len() implies !(#[trigger] front[k]).contains(
            separator,
        ) by {
            assert(front[k] == parts[k]);
        }
        law_joined_texts_come_apart(front, separator);
        let before = join(front, sep);
        assert(join(parts, sep) =~= before.push(separator) + last);
        law_splitting_cuts_at_the_separator(before, last, separator);
        assert(front + seq![last] =~= parts);
    }
}

/// The characters of the pieces of a text are characters of the text, without the
/// separator.
pub proof fn lemma_pieces_come_from_the_text(s: Seq<char>, separator: char, k: int, i: int)
    requires
        0 <= k < split_at_char(s, separator).len(),
        0 <= i < split_at_char(s, separator)[k].len(),
    ensures
        s.contains(split_at_char(s, separator)[k][i]),
        split_at_char(s, separator)[k][i] != separator,
    decreases s.len(),
{
    let cut = is_char(separator);
    lemma_pieces_are_uncut(s, cut, k, i);
    if s.len() > 0 {
        let front = s.drop_last();
        let before = split_where(front, cut);
        lemma_split_nonempty(front, cut);
        if k < before.len() && i < before[k].len() {
            lemma_pieces_come_from_the_text(front, separator, k, i);
            let c = before[k][i];
            let at = choose|at: int| 0 <= at < front.len() && front[at] == c;
            assert(s[at] == c);
        } else {
            assert(s[s.len() - 1] == s.last());
        }
    }
}

proof fn lemma_join_front(head: Seq<char>, rest: Seq<Seq<char>>, separator: Seq<char>)
    requires
        rest.len() > 0,
    ensures
        join(seq![head] + rest, separator) == head + separator + join(rest, separator),
    decreases rest.len(),
{
    let all = seq![head] + rest;
    assert(all.drop_last() =~= seq![head] + rest.drop_last());
    assert(all.last() == rest.last());
    if rest.len() == 1 {
        assert(all.drop_last() =~= seq![head]);
        assert(join(all.drop_last(), separator) == head);
    } else {
        lemma_join_front(head, rest.drop_last(), separator);
        assert(head + separator + join(rest.drop_last(), separator) + separator + rest.last()
            =~= head + separator + (join(rest.drop_last(), separator) + separator + rest.last()));
    }
}

/// Splitting on a pattern takes out the pattern and nothing else, and leaves it in
/// none of the pieces.
pub proof fn law_splitting_takes_the_pattern_out(s: Seq<char>, pattern: Seq<char>)
    requires
        pattern.len() > 0,
    ensures
        split_on(s, pattern).len() > 0,
        join(split_on(s, pattern), pattern) == s,
        forall|k: int|
            0 <= k < split_on(s, pattern).len() ==> !includes_text(
                #[trigger] split_on(s, pattern)[k],
                pattern,
            ),
    decreases s.len(),
{
    if exists|i: int| first_match(s, pattern, i) && pattern.len() > 0 {
        let i = choose|i: int| first_match(s, pattern, i) && pattern.len() > 0;
        let rest = s.skip(i + pattern.len());
        law_splitting_takes_the_pattern_out(rest, pattern);
        lemma_join_front(s.take(i), split_on(rest, pattern), pattern);
        assert(s.take(i) + pattern + rest =~= s) by {
            assert(s.subrange(i, i + pattern.len()) == pattern);
            assert forall|j: int| 0 <= j < pattern.len() implies pattern[j] == s[i + j] by {
                assert(s.subrange(i, i + pattern.len())[j] == s[i + j]);
            }
        }
        assert forall|k: int| 0 <= k < split_on(s, pattern).len() implies !includes_text(
            #[trigger] split_on(s, pattern)[k],
            pattern,
        ) by {
            if k == 0 {
                assert forall|at: int|
                    0 <= at <= s.take(i).len() - pattern.len() implies !#[trigger] occurs_at(
                    s.take(i),
                    pattern,
                    at,
                ) by {
                    assert(s.take(i).subrange(at, at + pattern.len()) =~= s.subrange(
                        at,
                        at + pattern.len(),
                    ));
                    assert(!occurs_at(s, pattern, at));
                }
            } else {
                assert(split_on(s, pattern)[k] == split_on(rest, pattern)[k - 1]);
            }
        }
    } else if includes_text(s, pattern) {
        let at = choose|at: int|
            0 <= at <= s.len() - pattern.len() && #[trigger] occurs_at(s, pattern, at);
        lemma_a_first_match(s, pattern, at);
    }
}

proof fn lemma_a_first_match(s: Seq<char>, pattern: Seq<char>, at: int)
    requires
        occurs_at(s, pattern, at),
    ensures
        exists|i: int| first_match(s, pattern, i),
    decreases at,
{
    if exists|j: int| 0 <= j < at && occurs_at(s, pattern, j) {
        let j = choose|j: int| 0 <= j < at && occurs_at(s, pattern, j);
        lemma_a_first_match(s, pattern, j);
    } else {
        assert(first_match(s, pattern, at));
    }
}

/// A pattern occurs in a text exactly where the text is the pattern with something
/// before it and something after it, either of which may be empty.
pub proof fn law_patterns_occur_between_two_texts(
    before: Seq<char>,
    pattern: Seq<char>,
    after: Seq<char>,
    s: Seq<char>,
)
    ensures
        includes_text(before + pattern + after, pattern),
        includes_text(s, pattern) ==> exists|at: int|
            0 <= at <= s.len() && s == #[trigger] s.take(at) + pattern + s.skip(at + pattern.len()),
{
    let whole = before + pattern + after;
    let at = before.len() as int;
    assert(whole.subrange(at, at + pattern.len()) =~= pattern);
    assert(occurs_at(whole, pattern, at));
    if includes_text(s, pattern) {
        let at = choose|at: int|
            0 <= at <= s.len() - pattern.len() && #[trigger] occurs_at(s, pattern, at);
        assert forall|j: int| 0 <= j < pattern.len() implies pattern[j] == s[at + j] by {
            assert(s.subrange(at, at + pattern.len())[j] == s[at + j]);
        }
        assert(s =~= s.take(at) + pattern + s.skip(at + pattern.len()));
    }
}

/// A text is split where it was put together: where the part before a separator
/// holds none, both parts come back as they were.
pub proof fn law_split_parts_come_back(head: Seq<char>, separator: char, tail: Seq<char>)
    requires
        !head.contains(separator),
    ensures
        split_first(head.push(separator) + tail, separator) == Some((head, tail)),
{
    let whole = head.push(separator) + tail;
    let at = head.len() as int;
    assert(whole[at] == separator);
    assert forall|j: int| 0 <= j < at implies whole[j] != separator by {
        assert(whole[j] == head[j]);
        assert(head.contains(head[j]));
    }
    lemma_first_index(whole, separator, at);
    assert(whole.take(at) =~= head);
    assert(whole.skip(at + 1) =~= tail);
}

} // verus!
