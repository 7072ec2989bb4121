//! Paths of files, written with slashes.

use vstd::prelude::*;

use crate::text;
use crate::text::{chars_of, concat2, concat3, same, split_char};

verus! {

/// A path with a part behind it. An absolute part stands alone.
pub open spec fn joined(base: Seq<char>, part: Seq<char>) -> Seq<char> {
    if part.len() > 0 && part[0] == '/' {
        part
    } else if base.len() == 0 || base.last() == '/' {
        base + part
    } else {
        base + seq!['/'] + part
    }
}

/// Whether a part of a path names something, rather than standing for the
/// directory it is in.
pub open spec fn is_component() -> spec_fn(Seq<char>) -> bool {
    |part: Seq<char>| part != ""@ && part != "."@
}

/// The name at the end of a path, if it ends in a name.
pub open spec fn final_name(path: Seq<char>) -> Option<Seq<char>> {
    let parts = text::split_at_char(path, '/').filter(is_component());
    if parts.len() == 0 || parts.last() == ".."@ {
        None
    } else {
        Some(parts.last())
    }
}

/// A path with a part behind it.
pub fn join(base: &str, part: &str) -> (path: String)
    ensures
        path@ == joined(base@, part@),
{
    let part_chars = chars_of(part);
    if part_chars.len() > 0 && part_chars[0] == '/' {
        return part.to_owned();
    }
    let base_chars = chars_of(base);
    if base_chars.len() == 0 || base_chars[base_chars.len() - 1] == '/' {
        return concat2(base, part);
    }
    proof {
        reveal_strlit("/");
        assert("/"@ =~= seq!['/']);
    }
    concat3(base, "/", part)
}

proof fn lemma_last_kept(parts: Seq<Seq<char>>, at: int, keep: spec_fn(Seq<char>) -> bool)
    requires
        0 <= at < parts.len(),
        keep(parts[at]),
        forall|i: int| at < i < parts.len() ==> !keep(#[trigger] parts[i]),
    ensures
        parts.filter(keep).len() > 0,
        parts.filter(keep).last() == parts[at],
    decreases parts.len(),
{
    let last = parts.last();
    let rest = parts.drop_last();
    assert(parts =~= rest.push(last));
    text::lemma_filter_push(rest, last, keep);
    if at < parts.len() - 1 {
        assert(!keep(parts[parts.len() - 1]));
        lemma_last_kept(rest, at, keep);
    }
}

proof fn lemma_none_kept(parts: Seq<Seq<char>>, keep: spec_fn(Seq<char>) -> bool)
    requires
        forall|i: int| 0 <= i < parts.len() ==> !keep(#[trigger] parts[i]),
    ensures
        parts.filter(keep).len() == 0,
    decreases parts.len(),
{
    if parts.len() > 0 {
        let last = parts.last();
        let rest = parts.drop_last();
        assert(parts =~= rest.push(last));
        text::lemma_filter_push(rest, last, keep);
        assert(!keep(parts[parts.len() - 1]));
        lemma_none_kept(rest, keep);
    } else {
        reveal(Seq::filter);
    }
}

/// The name at the end of a path, if it ends in a name.
pub fn file_name(path: &str) -> (name: Option<String>)
    ensures
        text::optional_text(name) == final_name(path@),
{
    let parts = split_char(path, '/');
    let ghost all = text::split_at_char(path@, '/');
    let mut left = parts.len();
    while left > 0
        invariant
            left <= parts@.len(),
            text::texts(parts@) == all,
            all == text::split_at_char(path@, '/'),
            forall|i: int| left <= i < all.len() ==> !is_component()(#[trigger] all[i]),
        decreases left,
    {
        let part = parts[left - 1].as_str();
        proof {
            assert(all[left - 1] == part@);
        }
        if same(part, "") || same(part, ".") {
            left -= 1;
            continue;
        }
        proof {
            lemma_last_kept(all, left - 1, is_component());
        }
        if same(part, "..") {
            return None;
        }
        return Some(part.to_owned());
    }
    proof {
        lemma_none_kept(all, is_component());
    }
    None
}

/// A part that does not begin with a slash is added to a path, with one slash
/// between the two and no more; one that does replaces the path.
pub proof fn law_parts_are_added_with_a_slash(base: Seq<char>, part: Seq<char>)
    ensures
        part.len() > 0 && part[0] == '/' ==> joined(base, part) == part,
        part.len() == 0 || part[0] != '/' ==> {
            &&& base.is_prefix_of(joined(base, part))
            &&& joined(base, part).skip(joined(base, part).len() - part.len()) == part
            &&& (base.len() == 0 ==> joined(base, part) == part)
            &&& (base.len() > 0 ==> joined(base, part)[joined(base, part).len() - part.len() - 1]
                == '/')
            &&& joined(base, part).len() <= base.len() + part.len() + 1
            &&& (base.len() > 0 && base.last() == '/' ==> joined(base, part).len() == base.len()
                + part.len())
        },
{
    if part.len() == 0 || part[0] != '/' {
        let whole = joined(base, part);
        assert(whole.skip(whole.len() - part.len()) =~= part);
        assert(base =~= whole.take(base.len() as int));
        if base.len() == 0 {
            assert(whole =~= part);
        }
    }
}

/// The name at the end of a path is what stands behind its last slash, whatever
/// stands before it; slashes and single dots at the end do not matter, and a path
/// that goes up at its end has no name.
pub proof fn law_names_stand_at_the_end(path: Seq<char>, name: Seq<char>)
    requires
        !name.contains('/'),
    ensures
        name.len() > 0 && name != "."@ && name != ".."@ ==> final_name(path.push('/') + name)
            == Some(name) && final_name(name) == Some(name),
        final_name(path.push('/')) == final_name(path),
        final_name(path.push('/') + "."@) == final_name(path),
        final_name(path.push('/') + ".."@) is None,
        final_name(Seq::<char>::empty()) is None,
{
    reveal_strlit("");
    reveal_strlit(".");
    reveal_strlit("..");
    let keep = is_component();
    let nothing = Seq::<char>::empty();
    let none = Seq::<Seq<char>>::empty();
    let before = text::split_at_char(path, '/');
    assert(""@ =~= nothing);
    assert(none.filter(keep) =~= none) by {
        reveal(Seq::filter);
    }
    text::law_splitting_cuts_at_the_separator(path, name, '/');
    text::law_splitting_cuts_at_the_separator(name, name, '/');
    text::law_splitting_cuts_at_the_separator(path, nothing, '/');
    text::law_splitting_cuts_at_the_separator(nothing, nothing, '/');
    assert(path.push('/') + nothing =~= path.push('/'));
    assert(!"."@.contains('/'));
    assert(!".."@.contains('/'));
    text::law_splitting_cuts_at_the_separator(path, "."@, '/');
    text::law_splitting_cuts_at_the_separator("."@, nothing, '/');
    text::law_splitting_cuts_at_the_separator(path, ".."@, '/');
    text::law_splitting_cuts_at_the_separator(".."@, nothing, '/');
    assert(before + seq![name] =~= before.push(name));
    assert(before + seq![nothing] =~= before.push(nothing));
    assert(before + seq!["."@] =~= before.push("."@));
    assert(before + seq![".."@] =~= before.push(".."@));
    text::lemma_filter_push(before, name, keep);
    text::lemma_filter_push(before, nothing, keep);
    text::lemma_filter_push(before, "."@, keep);
    text::lemma_filter_push(before, ".."@, keep);
    text::lemma_filter_push(none, name, keep);
    text::lemma_filter_push(none, nothing, keep);
    assert(none.push(name) =~= seq![name]);
    assert(none.push(nothing) =~= seq![nothing]);
    assert(".."@ != ""@ && ".."@ != "."@) by {
        assert(".."@.len() == 2);
        assert("."@.len() == 1);
    }
    if name.len() > 0 {
        assert(name != ""@);
    }
}

} // verus!
