//! Paths: the parts that they are made of, and what stands below a directory.

use vstd::prelude::*;

use crate::text;

verus! {

/// A part that leads nowhere else: what stands between two slashes, and the single dot.
pub open spec fn is_idle(part: Seq<char>) -> bool {
    part.len() == 0 || part == "."@
}

/// Where a path begins.
#[derive(Clone, Copy, Debug, Eq, PartialEq, Structural)]
pub enum PathStart {
    /// At the root of the file system.
    Root,
    /// At the current directory, which is named.
    Here,
    /// At the current directory, which is not named.
    Bare,
}

pub open spec fn start_of(path: Seq<char>) -> PathStart {
    if path.len() > 0 && path[0] == '/' {
        PathStart::Root
    } else if text::split(path, '/')[0] == "."@ {
        PathStart::Here
    } else {
        PathStart::Bare
    }
}

/// `parts` without the idle ones that it begins with.
pub open spec fn skip_idle(parts: Seq<Seq<char>>) -> Seq<Seq<char>>
    decreases parts.len(),
{
    if parts.len() > 0 && is_idle(parts[0]) {
        skip_idle(parts.skip(1))
    } else {
        parts
    }
}

/// `parts` without the idle ones that it ends with.
pub open spec fn drop_idle(parts: Seq<Seq<char>>) -> Seq<Seq<char>>
    decreases parts.len(),
{
    if parts.len() > 0 && is_idle(parts.last()) {
        drop_idle(parts.drop_last())
    } else {
        parts
    }
}

/// What is left of `parts` behind the parts of `base`, if it begins with those. Idle parts count
/// for nothing.
pub open spec fn parts_below(parts: Seq<Seq<char>>, base: Seq<Seq<char>>) -> Option<Seq<Seq<char>>>
    decreases parts.len() + base.len(),
{
    if base.len() == 0 {
        Some(drop_idle(skip_idle(parts)))
    } else if is_idle(base[0]) {
        parts_below(parts, base.skip(1))
    } else if parts.len() == 0 {
        None
    } else if is_idle(parts[0]) {
        parts_below(parts.skip(1), base)
    } else if parts[0] == base[0] {
        parts_below(parts.skip(1), base.skip(1))
    } else {
        None
    }
}

/// `path` without the idle parts that it ends with.
pub open spec fn tidied(path: Seq<char>) -> Seq<char> {
    let parts = text::split(path, '/');
    match start_of(path) {
        PathStart::Root => "/"@ + text::joined(drop_idle(parts.skip(1)), '/'),
        PathStart::Here => text::joined(seq!["."@] + drop_idle(parts.skip(1)), '/'),
        PathStart::Bare => text::joined(drop_idle(parts), '/'),
    }
}

/// What stands below `base` in `path`, if `path` leads through `base`. Below no path at all stands
/// the whole path.
pub open spec fn path_below(path: Seq<char>, base: Seq<char>) -> Option<Seq<char>> {
    if base.len() == 0 {
        Some(tidied(path))
    } else if start_of(path) != start_of(base) {
        None
    } else {
        match parts_below(text::split(path, '/'), text::split(base, '/')) {
            Some(rest) => Some(text::joined(rest, '/')),
            None => None,
        }
    }
}

/// The parts that are not idle.
pub open spec fn named(parts: Seq<Seq<char>>) -> Seq<Seq<char>>
    decreases parts.len(),
{
    if parts.len() == 0 {
        Seq::empty()
    } else if is_idle(parts[0]) {
        named(parts.skip(1))
    } else {
        seq![parts[0]] + named(parts.skip(1))
    }
}

proof fn lemma_skip_idle(parts: Seq<Seq<char>>)
    ensures
        named(skip_idle(parts)) == named(parts),
    decreases parts.len(),
{
    if parts.len() > 0 && is_idle(parts[0]) {
        lemma_skip_idle(parts.skip(1));
    }
}

proof fn lemma_named_last(parts: Seq<Seq<char>>)
    requires
        parts.len() > 0,
        is_idle(parts.last()),
    ensures
        named(parts.drop_last()) == named(parts),
    decreases parts.len(),
{
    if parts.len() == 1 {
        assert(parts.skip(1).len() == 0);
        assert(named(parts.skip(1)) =~= Seq::empty());
    } else {
        assert(parts.skip(1).drop_last() =~= parts.drop_last().skip(1));
        assert(parts.skip(1).last() == parts.last());
        assert(parts.drop_last()[0] == parts[0]);
        lemma_named_last(parts.skip(1));
    }
}

proof fn lemma_drop_idle(parts: Seq<Seq<char>>)
    ensures
        named(drop_idle(parts)) == named(parts),
    decreases parts.len(),
{
    if parts.len() > 0 && is_idle(parts.last()) {
        lemma_named_last(parts);
        lemma_drop_idle(parts.drop_last());
    }
}

/// A path stands below another exactly where the names in it begin with the names in the other,
/// and the rest of the names stand below.
pub proof fn law_names_below_follow_the_base(parts: Seq<Seq<char>>, base: Seq<Seq<char>>)
    ensures
        parts_below(parts, base) is Some <==> named(base).is_prefix_of(named(parts)),
        parts_below(parts, base) matches Some(rest) ==> named(parts) == named(base) + named(rest),
    decreases parts.len() + base.len(),
{
    if base.len() == 0 {
        lemma_skip_idle(parts);
        lemma_drop_idle(skip_idle(parts));
        assert(named(parts) =~= named(base) + named(parts));
    } else if is_idle(base[0]) {
        law_names_below_follow_the_base(parts, base.skip(1));
    } else if parts.len() == 0 {
        assert(named(base).len() > 0);
    } else if is_idle(parts[0]) {
        law_names_below_follow_the_base(parts.skip(1), base);
    } else {
        assert(named(parts)[0] == parts[0]);
        assert(named(base)[0] == base[0]);
        if parts[0] == base[0] {
            let p = parts.skip(1);
            let b = base.skip(1);
            law_names_below_follow_the_base(p, b);
            assert(named(parts).skip(1) =~= named(p));
            assert(named(base).skip(1) =~= named(b));
            if named(b).is_prefix_of(named(p)) {
                assert(named(parts) =~= named(base) + named(p).skip(named(b).len() as int));
                assert(named(base) =~= named(parts).subrange(0, named(base).len() as int));
            }
            if named(base).is_prefix_of(named(parts)) {
                assert(named(b) =~= named(p).subrange(0, named(b).len() as int)) by {
                    assert forall|i: int| 0 <= i < named(b).len() implies named(b)[i] == named(
                        p,
                    )[i] by {
                        assert(named(base)[i + 1] == named(parts)[i + 1]);
                    }
                }
            }
            if let Some(rest) = parts_below(p, b) {
                assert(named(parts) =~= named(base) + named(rest));
            }
        }
    }
}

fn idle(part: &String) -> (found: bool)
    ensures
        found == is_idle(part@),
{
    proof {
        reveal_strlit("");
        assert(part@.len() == 0 ==> part@ =~= ""@);
    }
    text::same_text(part.as_str(), "") || text::same_text(part.as_str(), ".")
}

fn path_start(path: &str, parts: &Vec<String>) -> (start: PathStart)
    requires
        text::views(parts@) == text::split(path@, '/'),
        parts@.len() > 0,
    ensures
        start == start_of(path@),
{
    let chars = text::characters(path);
    assert(text::split(path@, '/')[0] == parts@[0]@);
    if chars.len() > 0 && chars[0] == '/' {
        PathStart::Root
    } else if text::same_text(parts[0].as_str(), ".") {
        PathStart::Here
    } else {
        PathStart::Bare
    }
}

/// The parts from `from` on, without the idle ones at the end.
fn without_idle_end(parts: &Vec<String>, from: usize) -> (kept: Vec<String>)
    requires
        from <= parts@.len(),
    ensures
        text::views(kept@) == drop_idle(text::views(parts@).skip(from as int)),
{
    let ghost all = text::views(parts@);
    let mut to: usize = parts.len();
    assert(all.subrange(from as int, to as int) =~= all.skip(from as int));
    while to > from && idle(&parts[to - 1])
        invariant
            from <= to <= parts@.len(),
            all == text::views(parts@),
            drop_idle(all.subrange(from as int, to as int)) == drop_idle(all.skip(from as int)),
        decreases to,
    {
        assert(all.subrange(from as int, to as int).drop_last() =~= all.subrange(
            from as int,
            to - 1,
        ));
        assert(all.subrange(from as int, to as int).last() == parts@[to - 1]@);
        to = to - 1;
    }
    proof {
        let left = all.subrange(from as int, to as int);
        if to > from {
            assert(left.last() == parts@[to - 1]@);
        }
        assert(drop_idle(left) == left);
    }
    let mut kept: Vec<String> = Vec::new();
    let mut i: usize = from;
    while i < to
        invariant
            from <= i <= to <= parts@.len(),
            all == text::views(parts@),
            text::views(kept@) == all.subrange(from as int, i as int),
        decreases to - i,
    {
        let ghost before = text::views(kept@);
        let part = parts[i].as_str().to_owned();
        assert(part@ == all[i as int]);
        kept.push(part);
        i = i + 1;
        assert(text::views(kept@) =~= before.push(part@));
        assert(text::views(kept@) =~= all.subrange(from as int, i as int));
    }
    kept
}

fn rest_below(parts: &Vec<String>, base: &Vec<String>) -> (rest: Option<Vec<String>>)
    ensures
        match rest {
            Some(rest) => parts_below(text::views(parts@), text::views(base@)) == Some(
                text::views(rest@),
            ),
            None => parts_below(text::views(parts@), text::views(base@)) is None,
        },
{
    let ghost all = text::views(parts@);
    let ghost whole = text::views(base@);
    let mut i: usize = 0;
    let mut j: usize = 0;
    assert(all.skip(0) =~= all && whole.skip(0) =~= whole);
    while j < base.len()
        invariant
            i <= parts@.len(),
            j <= base@.len(),
            all == text::views(parts@),
            whole == text::views(base@),
            parts_below(all, whole) == parts_below(all.skip(i as int), whole.skip(j as int)),
        decreases parts@.len() - i + base@.len() - j,
    {
        assert(whole.skip(j as int)[0] == base@[j as int]@);
        assert(whole.skip(j as int).skip(1) =~= whole.skip(j + 1));
        if idle(&base[j]) {
            j = j + 1;
        } else if i >= parts.len() {
            return None;
        } else {
            assert(all.skip(i as int)[0] == parts@[i as int]@);
            assert(all.skip(i as int).skip(1) =~= all.skip(i + 1));
            if idle(&parts[i]) {
                i = i + 1;
            } else if text::same_text(parts[i].as_str(), base[j].as_str()) {
                i = i + 1;
                j = j + 1;
            } else {
                return None;
            }
        }
    }
    assert(whole.skip(j as int).len() == 0);
    let ghost from = i;
    while i < parts.len() && idle(&parts[i])
        invariant
            i <= parts@.len(),
            all == text::views(parts@),
            skip_idle(all.skip(from as int)) == skip_idle(all.skip(i as int)),
        decreases parts@.len() - i,
    {
        assert(all.skip(i as int)[0] == parts@[i as int]@);
        assert(all.skip(i as int).skip(1) =~= all.skip(i + 1));
        i = i + 1;
    }
    proof {
        if i < parts@.len() {
            assert(all.skip(i as int)[0] == parts@[i as int]@);
        }
        assert(skip_idle(all.skip(i as int)) == all.skip(i as int));
    }
    Some(without_idle_end(parts, i))
}

/// What stands below `base` in `path`, if `path` leads through `base`.
pub fn strip_base(path: &str, base: &str) -> (rest: Option<String>)
    ensures
        match rest {
            Some(rest) => path_below(path@, base@) == Some(rest@),
            None => path_below(path@, base@) is None,
        },
{
    proof {
        reveal_strlit("");
        assert(base@.len() == 0 ==> base@ =~= ""@);
    }
    let parts = text::pieces(path, '/');
    let start = path_start(path, &parts);
    if text::same_text(base, "") {
        let tidy = match start {
            PathStart::Root => {
                let mut tidy = "/".to_string();
                text::append(&mut tidy, text::join(&without_idle_end(&parts, 1), '/').as_str());
                tidy
            },
            PathStart::Here => {
                let mut kept = without_idle_end(&parts, 1);
                let ghost rest = text::views(kept@);
                kept.insert(0, ".".to_string());
                assert(text::views(kept@) =~= seq!["."@] + rest);
                text::join(&kept, '/')
            },
            PathStart::Bare => {
                let kept = without_idle_end(&parts, 0);
                assert(text::views(parts@).skip(0) =~= text::views(parts@));
                text::join(&kept, '/')
            },
        };
        return Some(tidy);
    }
    let base_parts = text::pieces(base, '/');
    if start != path_start(base, &base_parts) {
        return None;
    }
    match rest_below(&parts, &base_parts) {
        Some(rest) => Some(text::join(&rest, '/')),
        None => None,
    }
}

} // verus!
