//! Lexical paths: slash-separated text, resolved without touching a file system.

use vstd::prelude::*;
use vstd::string::*;

verus! {

/// A path as host programs hold it.
#[verifier::external_type_specification]
#[verifier::external_body]
pub struct ExPathBuf(std::path::PathBuf);

/// The text of a path.
pub uninterp spec fn path_text(p: std::path::PathBuf) -> Seq<char>;

/// `std::path::Path::to_string_lossy`: the text of a path, which depends on the path
/// alone. Where the path is not Unicode, each part that is not is replaced by
/// U+FFFD; how the text comes about is not stated.
#[verifier::external_body]
pub(crate) fn text_of(p: &std::path::PathBuf) -> (r: String)
    ensures
        r@ == path_text(*p),
{
    p.to_string_lossy().into_owned()
}

/// Whether a path starts at the root.
pub open spec fn is_rooted(p: Seq<char>) -> bool {
    p.len() > 0 && p[0] == '/'
}

/// The text between slashes, empty pieces included.
pub open spec fn pieces(p: Seq<char>) -> Seq<Seq<char>>
    decreases p.len(),
{
    if p.len() == 0 {
        seq![Seq::empty()]
    } else {
        let before = pieces(p.drop_last());
        if p.last() == '/' {
            before.push(Seq::empty())
        } else {
            before.drop_last().push(before.last().push(p.last()))
        }
    }
}

/// The names that are left once `.` and empty pieces are skipped and `..` has
/// taken back the name before it. At the top `..` has nothing to take back.
pub open spec fn resolve(parts: Seq<Seq<char>>) -> Seq<Seq<char>>
    decreases parts.len(),
{
    if parts.len() == 0 {
        Seq::empty()
    } else {
        let before = resolve(parts.drop_last());
        let part = parts.last();
        if part.len() == 0 || part == "."@ {
            before
        } else if part == ".."@ {
            if before.len() > 0 {
                before.drop_last()
            } else {
                before
            }
        } else {
            before.push(part)
        }
    }
}

/// Names with a slash between each two.
pub open spec fn slashed(names: Seq<Seq<char>>) -> Seq<char>
    decreases names.len(),
{
    if names.len() == 0 {
        Seq::empty()
    } else if names.len() == 1 {
        names[0]
    } else {
        slashed(names.drop_last()) + "/"@ + names.last()
    }
}

/// The names on the way to `p`, which is taken from `cwd` unless it is rooted.
pub open spec fn names_of(p: Seq<char>, cwd: Seq<char>) -> Seq<Seq<char>> {
    if is_rooted(p) {
        resolve(pieces(p))
    } else {
        resolve(pieces(cwd) + pieces(p))
    }
}

/// The canonical text of `p` taken from `cwd`.
pub open spec fn canonical(p: Seq<char>, cwd: Seq<char>) -> Seq<char> {
    if is_rooted(p) || is_rooted(cwd) {
        "/"@ + slashed(names_of(p, cwd))
    } else {
        slashed(names_of(p, cwd))
    }
}

/// What a vector of strings holds.
pub open spec fn texts(v: Seq<String>) -> Seq<Seq<char>> {
    v.map_values(|s: String| s@)
}

fn starts_at_root(p: &str) -> (r: bool)
    ensures
        r == is_rooted(p@),
{
    if p.unicode_len() == 0 {
        false
    } else {
        p.get_char(0) == '/'
    }
}

/// Takes one more piece of a path into account.
fn step(names: &mut Vec<String>, part: &str)
    ensures
        forall|parts: Seq<Seq<char>>|
            texts(old(names)@) == #[trigger] resolve(parts) ==> texts(final(names)@) == resolve(
                parts.push(part@),
            ),
{
    let ghost before = names@;
    proof {
        reveal_strlit(".");
        reveal_strlit("..");
    }
    let skip = part.unicode_len() == 0 || str_same(part, ".");
    if skip {
    } else if str_same(part, "..") {
        let _ = names.pop();
    } else {
        names.push(part.to_owned());
    }
    proof {
        assert forall|parts: Seq<Seq<char>>| texts(before) == #[trigger] resolve(parts) implies texts(
            names@,
        ) == resolve(parts.push(part@)) by {
            assert(parts.push(part@).drop_last() =~= parts);
            assert(parts.push(part@).last() == part@);
            if skip {
            } else if part@ == ".."@ {
                if before.len() > 0 {
                    assert(texts(names@) =~= texts(before).drop_last());
                } else {
                    assert(texts(names@) =~= texts(before));
                }
            } else {
                assert(texts(names@) =~= texts(before).push(part@));
            }
        }
    }
}

/// Whether two texts are the same.
fn str_same(a: &str, b: &str) -> (r: bool)
    ensures
        r == (a@ == b@),
{
    let n = a.unicode_len();
    if n != b.unicode_len() {
        return false;
    }
    let mut i: usize = 0;
    while i < n
        invariant
            i <= n,
            n == a@.len(),
            n == b@.len(),
            forall|j: int| 0 <= j < i ==> a@[j] == b@[j],
        decreases n - i,
    {
        if a.get_char(i) != b.get_char(i) {
            return false;
        }
        i += 1;
    }
    assert(a@ =~= b@);
    true
}

/// Takes all the pieces of `p` into account.
fn walk(names: &mut Vec<String>, p: &str)
    ensures
        forall|parts: Seq<Seq<char>>|
            texts(old(names)@) == #[trigger] resolve(parts) ==> texts(final(names)@) == resolve(
                parts + pieces(p@),
            ),
{
    let n = p.unicode_len();
    let mut start: usize = 0;
    let mut i: usize = 0;
    proof {
        assert(p@.take(0) =~= Seq::<char>::empty());
        assert(pieces(p@.take(0)).drop_last() =~= Seq::<Seq<char>>::empty());
        assert(pieces(p@.take(0)).last() =~= p@.subrange(0, 0));
        assert forall|parts: Seq<Seq<char>>| texts(names@) == #[trigger] resolve(parts) implies texts(
            names@,
        ) == resolve(parts + pieces(p@.take(0)).drop_last()) by {
            assert(parts + Seq::<Seq<char>>::empty() =~= parts);
        }
    }
    while i < n
        invariant
            start <= i <= n,
            n == p@.len(),
            pieces(p@.take(i as int)).len() > 0,
            pieces(p@.take(i as int)).last() == p@.subrange(start as int, i as int),
            forall|parts: Seq<Seq<char>>|
                texts(old(names)@) == #[trigger] resolve(parts) ==> texts(names@) == resolve(
                    parts + pieces(p@.take(i as int)).drop_last(),
                ),
        decreases n - i,
    {
        let ghost before = names@;
        let ghost now = pieces(p@.take(i as int));
        let ghost next = pieces(p@.take(i + 1));
        proof {
            assert(p@.take(i + 1).drop_last() =~= p@.take(i as int));
            assert(p@.take(i + 1).last() == p@[i as int]);
        }
        if p.get_char(i) == '/' {
            step(names, p.substring_char(start, i));
            start = i + 1;
            proof {
                assert(next == now.push(Seq::empty()));
                assert(next.drop_last() =~= now);
                assert(next.last() =~= p@.subrange(start as int, i + 1));
                assert forall|parts: Seq<Seq<char>>|
                    texts(old(names)@) == #[trigger] resolve(parts) implies texts(names@)
                    == resolve(parts + next.drop_last()) by {
                    let done = parts + now.drop_last();
                    assert(texts(before) == resolve(done));
                    assert(done.push(now.last()) =~= parts + now);
                }
            }
        } else {
            proof {
                assert(next.drop_last() =~= now.drop_last());
                assert(next.last() =~= p@.subrange(start as int, i + 1));
            }
        }
        i += 1;
    }
    let ghost before = names@;
    step(names, p.substring_char(start, n));
    proof {
        assert(p@.take(n as int) =~= p@);
        let all = pieces(p@);
        assert forall|parts: Seq<Seq<char>>| texts(old(names)@) == #[trigger] resolve(
            parts,
        ) implies texts(names@) == resolve(parts + all) by {
            let done = parts + all.drop_last();
            assert(texts(before) == resolve(done));
            assert(done.push(all.last()) =~= parts + all);
        }
    }
}

/// The path that `p` denotes when it is taken from `cwd`, with `.`, `..` and
/// repeated slashes resolved in the text alone. Symbolic links are left to
/// whoever opens the path.
pub fn canonicalize(p: &str, cwd: &str) -> (r: String)
    ensures
        r@ == canonical(p@, cwd@),
{
    let mut names: Vec<String> = Vec::new();
    let rooted = starts_at_root(p);
    proof {
        assert(texts(names@) =~= resolve(Seq::empty()));
        assert(Seq::<Seq<char>>::empty() + pieces(p@) =~= pieces(p@));
        assert(Seq::<Seq<char>>::empty() + pieces(cwd@) =~= pieces(cwd@));
    }
    if !rooted {
        walk(&mut names, cwd);
    }
    walk(&mut names, p);
    assert(texts(names@) == names_of(p@, cwd@));
    let mut out = if rooted || starts_at_root(cwd) {
        "/".to_owned()
    } else {
        String::new()
    };
    let ghost head = out@;
    let mut i: usize = 0;
    assert(out@ =~= head + slashed(texts(names@).take(0)));
    while i < names.len()
        invariant
            i <= names@.len(),
            out@ == head + slashed(texts(names@).take(i as int)),
        decreases names@.len() - i,
    {
        let ghost done = texts(names@).take(i as int);
        let ghost more = texts(names@).take(i + 1);
        proof {
            assert(more.drop_last() =~= done);
            assert(more.last() == names@[i as int]@);
        }
        if i > 0 {
            out.append("/");
        }
        out.append(names[i].as_str());
        assert(out@ =~= head + slashed(more));
        i += 1;
    }
    assert(texts(names@).take(i as int) =~= texts(names@));
    out
}

/// Resolving already resolved names changes nothing.
proof fn lemma_resolve_fixed(names: Seq<Seq<char>>)
    requires
        forall|i: int|
            0 <= i < names.len() ==> (#[trigger] names[i]).len() > 0 && names[i] != "."@ && names[i]
                != ".."@,
    ensures
        resolve(names) == names,
    decreases names.len(),
{
    if names.len() > 0 {
        lemma_resolve_fixed(names.drop_last());
        assert(names.last() == names[names.len() - 1]);
        assert(names.drop_last().push(names.last()) =~= names);
    }
}

/// No piece of a resolved path is empty, `.` or `..`.
pub proof fn law_resolved_names(parts: Seq<Seq<char>>)
    ensures
        forall|i: int|
            0 <= i < resolve(parts).len() ==> (#[trigger] resolve(parts)[i]).len() > 0 && resolve(
                parts,
            )[i] != "."@ && resolve(parts)[i] != ".."@,
        resolve(resolve(parts)) == resolve(parts),
    decreases parts.len(),
{
    if parts.len() > 0 {
        law_resolved_names(parts.drop_last());
    }
    lemma_resolve_fixed(resolve(parts));
}

/// Whether a text is a single piece of a path.
pub open spec fn is_piece(n: Seq<char>) -> bool {
    forall|i: int| 0 <= i < n.len() ==> #[trigger] n[i] != '/'
}

proof fn lemma_pieces(p: Seq<char>)
    ensures
        pieces(p).len() > 0,
        forall|i: int| 0 <= i < pieces(p).len() ==> is_piece(#[trigger] pieces(p)[i]),
    decreases p.len(),
{
    if p.len() > 0 {
        lemma_pieces(p.drop_last());
        let before = pieces(p.drop_last());
        assert(is_piece(before[before.len() - 1]));
        assert forall|i: int| 0 <= i < pieces(p).len() implies is_piece(#[trigger] pieces(p)[i]) by {
            if i < before.len() - 1 {
                assert(pieces(p)[i] == before[i]);
            } else if p.last() == '/' && i == before.len() - 1 {
                assert(pieces(p)[i] == before[i]);
            }
        }
    }
}

/// The pieces of two paths with a slash in between are those of both.
proof fn lemma_pieces_of_both(a: Seq<char>, b: Seq<char>)
    ensures
        pieces(a + "/"@ + b) == pieces(a) + pieces(b),
    decreases b.len(),
{
    reveal_strlit("/");
    let all = a + "/"@ + b;
    if b.len() == 0 {
        assert(all.drop_last() =~= a);
        assert(all.last() == '/');
        assert(pieces(all) =~= pieces(a) + pieces(b));
    } else {
        lemma_pieces_of_both(a, b.drop_last());
        lemma_pieces(b.drop_last());
        assert(all.drop_last() =~= a + "/"@ + b.drop_last());
        assert(all.last() == b.last());
        assert(pieces(all) =~= pieces(a) + pieces(b));
    }
}

proof fn lemma_one_piece(n: Seq<char>)
    requires
        is_piece(n),
    ensures
        pieces(n) == seq![n],
    decreases n.len(),
{
    if n.len() == 0 {
        assert(n =~= Seq::empty());
    } else {
        assert(is_piece(n.drop_last())) by {
            assert forall|i: int| 0 <= i < n.len() - 1 implies #[trigger] n.drop_last()[i] != '/' by {
                assert(n[i] != '/');
            }
        }
        lemma_one_piece(n.drop_last());
        assert(n[n.len() - 1] != '/');
        assert(n.drop_last().push(n.last()) =~= n);
        assert(pieces(n) =~= seq![n]);
    }
}

/// A path from the root does not depend on the working directory, and any other is
/// taken from there: it denotes what the two denote together.
pub proof fn law_path_is_taken_from_the_directory(
    p: Seq<char>,
    cwd: Seq<char>,
    other: Seq<char>,
)
    ensures
        is_rooted(p) ==> canonical(p, cwd) == canonical(p, other),
        !is_rooted(p) && is_rooted(cwd) ==> canonical(p, cwd) == canonical(cwd + "/"@ + p, other),
        is_rooted(p) || is_rooted(cwd) ==> is_rooted(canonical(p, cwd)),
{
    reveal_strlit("/");
    lemma_pieces_of_both(cwd, p);
    if is_rooted(cwd) {
        assert((cwd + "/"@ + p)[0] == '/');
    }
}

/// One more piece of a path leads one name further, except that nothing and `.` lead
/// nowhere and `..` leads back by a name, if there is one.
pub proof fn law_one_more_piece(p: Seq<char>, n: Seq<char>, cwd: Seq<char>)
    requires
        p.len() > 0,
        is_piece(n),
    ensures
        is_rooted(p + "/"@ + n) == is_rooted(p),
        ({
            let before = names_of(p, cwd);
            let after = names_of(p + "/"@ + n, cwd);
            if n.len() == 0 || n == seq!['.'] {
                after == before
            } else if n == seq!['.', '.'] {
                after == (if before.len() > 0 {
                    before.drop_last()
                } else {
                    before
                })
            } else {
                after == before.push(n)
            }
        }),
{
    reveal_strlit("/");
    reveal_strlit(".");
    reveal_strlit("..");
    lemma_pieces_of_both(p, n);
    lemma_one_piece(n);
    assert((p + "/"@ + n)[0] == p[0]);
    assert("."@ =~= seq!['.']);
    assert(".."@ =~= seq!['.', '.']);
    let parts = if is_rooted(p) {
        pieces(p)
    } else {
        pieces(cwd) + pieces(p)
    };
    assert(pieces(p) + seq![n] =~= pieces(p).push(n));
    assert(pieces(cwd) + (pieces(p) + seq![n]) =~= (pieces(cwd) + pieces(p)).push(n));
    assert(parts.push(n).drop_last() =~= parts);
    assert(parts.push(n).last() == n);
}

proof fn lemma_names_are_pieces(parts: Seq<Seq<char>>)
    requires
        forall|i: int| 0 <= i < parts.len() ==> is_piece(#[trigger] parts[i]),
    ensures
        forall|i: int| 0 <= i < resolve(parts).len() ==> is_piece(#[trigger] resolve(parts)[i]),
    decreases parts.len(),
{
    if parts.len() > 0 {
        let rest = parts.drop_last();
        assert(forall|i: int| 0 <= i < rest.len() ==> #[trigger] rest[i] == parts[i]);
        lemma_names_are_pieces(rest);
        assert(is_piece(parts[parts.len() - 1]));
        let before = resolve(rest);
        let names = resolve(parts);
        assert forall|i: int| 0 <= i < names.len() implies is_piece(#[trigger] names[i]) by {
            if i < before.len() {
                assert(names[i] == before[i]);
            }
        }
    }
}

/// The pieces of names with slashes in between are the names.
proof fn lemma_pieces_of_names(names: Seq<Seq<char>>)
    requires
        names.len() > 0,
        forall|i: int| 0 <= i < names.len() ==> is_piece(#[trigger] names[i]),
    ensures
        pieces(slashed(names)) == names,
    decreases names.len(),
{
    if names.len() == 1 {
        assert(is_piece(names[0]));
        lemma_one_piece(names[0]);
        assert(seq![names[0]] =~= names);
    } else {
        let rest = names.drop_last();
        assert(forall|i: int| 0 <= i < rest.len() ==> #[trigger] rest[i] == names[i]);
        lemma_pieces_of_names(rest);
        assert(is_piece(names[names.len() - 1]));
        lemma_pieces_of_both(slashed(rest), names.last());
        lemma_one_piece(names.last());
        assert(rest + seq![names.last()] =~= names);
    }
}

/// A canonical path from the root stays as it is, wherever it is taken from.
pub proof fn law_canonical_stays(p: Seq<char>, cwd: Seq<char>, other: Seq<char>)
    requires
        is_rooted(p) || is_rooted(cwd),
    ensures
        canonical(canonical(p, cwd), other) == canonical(p, cwd),
{
    reveal_strlit("/");
    let parts = if is_rooted(p) {
        pieces(p)
    } else {
        pieces(cwd) + pieces(p)
    };
    let names = names_of(p, cwd);
    lemma_pieces(p);
    lemma_pieces(cwd);
    assert forall|i: int| 0 <= i < parts.len() implies is_piece(#[trigger] parts[i]) by {
        if !is_rooted(p) {
            if i < pieces(cwd).len() {
                assert(parts[i] == pieces(cwd)[i]);
            } else {
                assert(parts[i] == pieces(p)[i - pieces(cwd).len()]);
            }
        }
    }
    lemma_names_are_pieces(parts);
    law_resolved_names(parts);
    let c = canonical(p, cwd);
    let empty = Seq::<char>::empty();
    assert(c =~= empty + "/"@ + slashed(names));
    lemma_pieces_of_both(empty, slashed(names));
    assert(pieces(empty) =~= seq![empty]);
    if names.len() == 0 {
        assert(slashed(names) =~= empty);
        let two = seq![empty] + seq![empty];
        assert(two.drop_last() =~= seq![empty]);
        assert(seq![empty].drop_last() =~= Seq::empty());
        reveal_with_fuel(resolve, 3);
        assert(resolve(two) =~= names);
    } else {
        lemma_pieces_of_names(names);
        lemma_leading_nothing(names);
        lemma_resolve_fixed(names);
    }
    assert(c[0] == '/');
}

/// An empty piece at the start leads nowhere.
proof fn lemma_leading_nothing(parts: Seq<Seq<char>>)
    ensures
        resolve(seq![Seq::<char>::empty()] + parts) == resolve(parts),
    decreases parts.len(),
{
    let more = seq![Seq::<char>::empty()] + parts;
    if parts.len() == 0 {
        assert(more.drop_last() =~= Seq::empty());
        reveal_with_fuel(resolve, 2);
    } else {
        lemma_leading_nothing(parts.drop_last());
        assert(more.drop_last() =~= seq![Seq::<char>::empty()] + parts.drop_last());
        assert(more.last() == parts.last());
    }
}

} // verus!
