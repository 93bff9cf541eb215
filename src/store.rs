use vstd::prelude::*;

use crate::path::{join, join_spec};
use vstd::std_specs::iter::IteratorSpec;

verus! {

broadcast use {vstd::string::axiom_spec_iter, vstd::string::next_postcondition};

/// Name of the store file inside the home directory.
pub const STORE_FILE_NAME: &'static str = ".clip_store";

/// The store file's name as characters.
pub open spec fn store_file_name() -> Seq<char> {
    seq!['.', 'c', 'l', 'i', 'p', '_', 's', 't', 'o', 'r', 'e']
}

/// Relies on home::home_dir: the current user's home directory, if one can be
/// found. It reads the process environment, so nothing is stated of it.
#[verifier::external_body]
fn home_directory() -> (r: Option<String>) {
    match home::home_dir() {
        Some(p) => Some(p.to_string_lossy().into_owned()),
        None => None,
    }
}

/// Where the store lives under the home directory `home`.
pub fn store_path_in(home: &str) -> (r: String)
    ensures
        r@ == join_spec(home@, store_file_name()),
{
    proof {
        reveal_strlit(".clip_store");
    }
    assert(STORE_FILE_NAME@ == store_file_name());
    join(home, STORE_FILE_NAME)
}

/// The store file of the current user, or `None` when no home directory can
/// be found.
pub fn get_store_path() -> (r: Option<String>)
    ensures
        r matches Some(p) ==> exists|home: Seq<char>| p@ == join_spec(home, store_file_name()),
{
    match home_directory() {
        Some(home) => Some(store_path_in(home.as_str())),
        None => None,
    }
}

/// A line as `str::lines` gives it: without its `\r` when that stood just
/// before the `\n` that ended it.
pub open spec fn strip_cr(line: Seq<char>) -> Seq<char> {
    if line.len() > 0 && line.last() == '\r' {
        line.drop_last()
    } else {
        line
    }
}

/// The lines of `s`, where `cur` holds the characters of the line already
/// begun. Each `\n` ends a line; what follows the last `\n`, when anything
/// does, is one more line.
pub open spec fn lines_from(s: Seq<char>, cur: Seq<char>) -> Seq<Seq<char>>
    decreases s.len(),
{
    if s.len() == 0 {
        if cur.len() == 0 {
            Seq::empty()
        } else {
            seq![cur]
        }
    } else if s[0] == '\n' {
        seq![strip_cr(cur)] + lines_from(s.drop_first(), Seq::empty())
    } else {
        lines_from(s.drop_first(), cur.push(s[0]))
    }
}

/// The lines of a text.
pub open spec fn lines_spec(s: Seq<char>) -> Seq<Seq<char>> {
    lines_from(s, Seq::empty())
}

/// One store entry as it is written: the path and a newline.
pub open spec fn entry_text(path: Seq<char>) -> Seq<char> {
    path.push('\n')
}

/// The entries for `paths`, one after the other.
pub open spec fn entries_text(paths: Seq<Seq<char>>) -> Seq<char>
    decreases paths.len(),
{
    if paths.len() == 0 {
        Seq::empty()
    } else {
        entries_text(paths.drop_last()) + entry_text(paths.last())
    }
}

/// The paths that were found, in order; `None` marks an argument that did
/// not exist.
pub open spec fn found_paths(resolved: Seq<Option<Seq<char>>>) -> Seq<Seq<char>>
    decreases resolved.len(),
{
    if resolved.len() == 0 {
        Seq::empty()
    } else {
        let rest = found_paths(resolved.drop_last());
        match resolved.last() {
            Some(p) => rest.push(p),
            None => rest,
        }
    }
}

/// An optional string as characters.
pub open spec fn opt_view(o: Option<String>) -> Option<Seq<char>> {
    match o {
        Some(s) => Some(s@),
        None => None,
    }
}

/// What is in the store: `None` when the store file does not exist.
pub open spec fn stored_text(store: Option<Seq<char>>) -> Seq<char> {
    match store {
        Some(t) => t,
        None => Seq::empty(),
    }
}

/// The store after a clip: the entries of the paths that were found are
/// appended, and the file exists from then on.
pub open spec fn clip_spec(store: Option<Seq<char>>, resolved: Seq<Option<Seq<char>>>) -> Option<
    Seq<char>,
> {
    Some(stored_text(store) + entries_text(found_paths(resolved)))
}

/// The store after an erase: gone.
pub open spec fn erase_spec(store: Option<Seq<char>>) -> Option<Seq<char>> {
    None
}

/// The paths that a listing shows. A store that does not exist lists nothing.
pub open spec fn list_spec(store: Option<Seq<char>>) -> Seq<Seq<char>> {
    lines_spec(stored_text(store))
}

/// A store whose last entry is complete: empty, missing, or ending in `\n`.
pub open spec fn store_well_formed(store: Option<Seq<char>>) -> bool {
    let t = stored_text(store);
    t.len() == 0 || t.last() == '\n'
}

/// A path that reads back from the store as written.
pub open spec fn storable(path: Seq<char>) -> bool {
    &&& !path.contains('\n')
    &&& (path.len() == 0 || path.last() != '\r')
}

/// The text that a clip appends to the store, given for each argument its
/// canonical form, or `None` where it did not exist.
pub fn clip_text(resolved: &[Option<String>]) -> (r: String)
    ensures
        r@ == entries_text(found_paths(resolved@.map_values(|o: Option<String>| opt_view(o)))),
{
    let ghost rs = resolved@.map_values(|o: Option<String>| opt_view(o));
    let mut r = String::new();
    let mut i: usize = 0;
    while i < resolved.len()
        invariant
            0 <= i <= resolved@.len(),
            rs == resolved@.map_values(|o: Option<String>| opt_view(o)),
            r@ == entries_text(found_paths(rs.subrange(0, i as int))),
        decreases resolved.len() - i,
    {
        let ghost before = found_paths(rs.subrange(0, i as int));
        assert(rs.subrange(0, i + 1).drop_last() == rs.subrange(0, i as int));
        assert(rs.subrange(0, i + 1).last() == opt_view(resolved@[i as int]));
        match &resolved[i] {
            Some(p) => {
                proof {
                    reveal_strlit("\n");
                }
                r.append(p.as_str());
                r.append("\n");
                assert(before.push(p@).drop_last() == before);
                assert(r@ == entries_text(before) + entry_text(p@));
            },
            None => {},
        }
        i = i + 1;
    }
    assert(rs.subrange(0, resolved@.len() as int) == rs);
    r
}

proof fn lemma_lines_step(lines: Seq<Seq<char>>, rest: Seq<char>, cur: Seq<char>)
    requires
        rest.len() > 0,
    ensures
        rest[0] == '\n' ==> lines + lines_from(rest, cur) == lines.push(strip_cr(cur))
            + lines_from(rest.drop_first(), Seq::empty()),
        rest[0] != '\n' ==> lines_from(rest, cur) == lines_from(rest.drop_first(), cur.push(rest[0])),
{
    if rest[0] == '\n' {
        assert(lines + (seq![strip_cr(cur)] + lines_from(rest.drop_first(), Seq::empty()))
            == lines.push(strip_cr(cur)) + lines_from(rest.drop_first(), Seq::empty()));
    }
}

/// The lines of `content`, as `str::lines` splits them.
pub fn store_lines(content: &str) -> (r: Vec<String>)
    ensures
        r.deep_view() == lines_spec(content@),
{
    let ghost s = content@;
    let n = content.unicode_len();
    let mut it = content.chars();
    let mut lines: Vec<String> = Vec::new();
    let mut i: usize = 0;
    let mut start: usize = 0;
    let mut prev_cr = false;
    proof {
        assert(s.subrange(0, n as int) == s);
        assert(s.subrange(0, 0) == Seq::<char>::empty());
        assert(lines.deep_view() == Seq::<Seq<char>>::empty());
        assert(Seq::<Seq<char>>::empty() + lines_spec(s) == lines_spec(s));
    }
    loop
        invariant
            s == content@,
            n == s.len(),
            0 <= start <= i <= n,
            it.obeys_prophetic_iter_laws(),
            it.remaining() == s.subrange(i as int, n as int),
            prev_cr == (i > start && s[i - 1] == '\r'),
            lines.deep_view() + lines_from(s.subrange(i as int, n as int), s.subrange(start as int, i as int)) == lines_spec(s),
        decreases n - i,
    {
        let ghost rest = s.subrange(i as int, n as int);
        let ghost cur = s.subrange(start as int, i as int);
        match it.next() {
            None => {
                assert(rest.len() == 0);
                if start < i {
                    let last = content.substring_char(start, i);
                    lines.push(String::from_str(last));
                    assert(lines.deep_view() == lines_spec(s));
                } else {
                    assert(lines.deep_view() + Seq::empty() == lines.deep_view());
                }
                return lines;
            },
            Some(c) => {
                assert(c == s[i as int]);
                proof {
                    lemma_lines_step(lines.deep_view(), rest, cur);
                    assert(rest.drop_first() == s.subrange(i + 1, n as int));
                }
                if c == '\n' {
                    let end = if prev_cr { i - 1 } else { i };
                    let line = content.substring_char(start, end);
                    proof {
                        if prev_cr {
                            assert(cur.drop_last() == line@);
                        } else {
                            assert(cur == line@);
                        }
                    }
                    lines.push(String::from_str(line));
                    i = i + 1;
                    start = i;
                    prev_cr = false;
                    assert(s.subrange(start as int, i as int) == Seq::<char>::empty());
                } else {
                    assert(cur.push(c) == s.subrange(start as int, i + 1));
                    prev_cr = c == '\r';
                    i = i + 1;
                }
            },
        }
    }
}

/// The paths that a listing shows: the lines of the store, and none where the
/// store file does not exist.
pub fn listing(stored: Option<&str>) -> (r: Vec<String>)
    ensures
        r.deep_view() == list_spec(
            match stored {
                Some(t) => Some(t@),
                None => None,
            },
        ),
{
    match stored {
        Some(t) => store_lines(t),
        None => {
            let r: Vec<String> = Vec::new();
            assert(r.deep_view() == Seq::<Seq<char>>::empty());
            r
        },
    }
}

proof fn lemma_lines_concat(a: Seq<char>, b: Seq<char>, cur: Seq<char>)
    requires
        a.len() > 0,
        a.last() == '\n',
    ensures
        lines_from(a + b, cur) == lines_from(a, cur) + lines_from(b, Seq::empty()),
    decreases a.len(),
{
    assert((a + b).drop_first() == a.drop_first() + b);
    assert((a + b)[0] == a[0]);
    if a[0] == '\n' {
        if a.len() == 1 {
            assert(a.drop_first() + b == b);
            assert(lines_from(a.drop_first(), Seq::empty()) == Seq::<Seq<char>>::empty());
            assert(lines_from(a, cur) == seq![strip_cr(cur)]);
        } else {
            lemma_lines_concat(a.drop_first(), b, Seq::empty());
            assert(seq![strip_cr(cur)] + (lines_from(a.drop_first(), Seq::empty()) + lines_from(
                b,
                Seq::empty(),
            )) == (seq![strip_cr(cur)] + lines_from(a.drop_first(), Seq::empty())) + lines_from(
                b,
                Seq::empty(),
            ));
        }
    } else {
        lemma_lines_concat(a.drop_first(), b, cur.push(a[0]));
    }
}

proof fn lemma_lines_of_entry(p: Seq<char>, cur: Seq<char>)
    requires
        !p.contains('\n'),
    ensures
        lines_from(entry_text(p), cur) == seq![strip_cr(cur + p)],
    decreases p.len(),
{
    let e = entry_text(p);
    if p.len() == 0 {
        assert(e[0] == '\n');
        assert(e.drop_first() == Seq::<char>::empty());
        assert(lines_from(Seq::<char>::empty(), Seq::empty()) == Seq::<Seq<char>>::empty());
        assert(seq![strip_cr(cur)] + Seq::<Seq<char>>::empty() == seq![strip_cr(cur)]);
        assert(cur + p == cur);
    } else {
        assert(e[0] == p[0]);
        if p[0] == '\n' {
            assert(p.contains('\n'));
        }
        assert(e.drop_first() == entry_text(p.drop_first()));
        if p.drop_first().contains('\n') {
            let k = choose|k: int| 0 <= k < p.drop_first().len() && p.drop_first()[k] == '\n';
            assert(p[k + 1] == '\n');
        }
        lemma_lines_of_entry(p.drop_first(), cur.push(p[0]));
        assert(cur.push(p[0]) + p.drop_first() == cur + p);
    }
}

proof fn lemma_lines_append_entry(t: Seq<char>, p: Seq<char>)
    requires
        t.len() == 0 || t.last() == '\n',
        storable(p),
    ensures
        lines_spec(t + entry_text(p)) == lines_spec(t).push(p),
{
    lemma_lines_of_entry(p, Seq::empty());
    assert(Seq::<char>::empty() + p == p);
    if t.len() == 0 {
        assert(t + entry_text(p) == entry_text(p));
        assert(lines_spec(t) == Seq::<Seq<char>>::empty());
        assert(Seq::<Seq<char>>::empty().push(p) == seq![p]);
    } else {
        lemma_lines_concat(t, entry_text(p), Seq::empty());
        assert(lines_spec(t) + seq![p] == lines_spec(t).push(p));
    }
}

proof fn lemma_lines_append_entries(t: Seq<char>, ps: Seq<Seq<char>>)
    requires
        t.len() == 0 || t.last() == '\n',
        forall|i: int| 0 <= i < ps.len() ==> storable(#[trigger] ps[i]),
    ensures
        lines_spec(t + entries_text(ps)) == lines_spec(t) + ps,
        ({
            let u = t + entries_text(ps);
            u.len() == 0 || u.last() == '\n'
        }),
    decreases ps.len(),
{
    if ps.len() == 0 {
        assert(t + entries_text(ps) == t);
        assert(lines_spec(t) + ps == lines_spec(t));
    } else {
        let rest = ps.drop_last();
        assert forall|i: int| 0 <= i < rest.len() implies storable(#[trigger] rest[i]) by {
            assert(rest[i] == ps[i]);
        }
        lemma_lines_append_entries(t, rest);
        let u = t + entries_text(rest);
        assert(storable(ps[ps.len() - 1]));
        lemma_lines_append_entry(u, ps.last());
        assert(t + entries_text(ps) == u + entry_text(ps.last()));
        assert(lines_spec(t) + rest + seq![ps.last()] == lines_spec(t) + ps);
    }
}

proof fn lemma_found_paths_index(resolved: Seq<Option<Seq<char>>>, i: int)
    requires
        0 <= i < found_paths(resolved).len(),
    ensures
        exists|j: int| 0 <= j < resolved.len() && resolved[j] == Some(found_paths(resolved)[i]),
    decreases resolved.len(),
{
    let rest = resolved.drop_last();
    if i < found_paths(rest).len() {
        lemma_found_paths_index(rest, i);
        let j = choose|j: int| 0 <= j < rest.len() && rest[j] == Some(found_paths(rest)[i]);
        assert(resolved[j] == rest[j]);
    } else {
        assert(resolved[resolved.len() - 1] == Some(found_paths(resolved)[i]));
    }
}

/// Clipping appends: listing the store after a clip shows what it showed
/// before, followed by the canonical form of each path that was found, in the
/// order given. Paths that were not found leave no entry.
pub proof fn lemma_clip_then_list(store: Option<Seq<char>>, resolved: Seq<Option<Seq<char>>>)
    requires
        store_well_formed(store),
        forall|j: int|
            0 <= j < resolved.len() && #[trigger] resolved[j] is Some ==> storable(
                resolved[j]->0,
            ),
    ensures
        list_spec(clip_spec(store, resolved)) == list_spec(store) + found_paths(resolved),
        store_well_formed(clip_spec(store, resolved)),
{
    let ps = found_paths(resolved);
    assert forall|i: int| 0 <= i < ps.len() implies storable(#[trigger] ps[i]) by {
        lemma_found_paths_index(resolved, i);
        let j = choose|j: int| 0 <= j < resolved.len() && resolved[j] == Some(ps[i]);
        assert(resolved[j] is Some);
    }
    lemma_lines_append_entries(stored_text(store), ps);
}

proof fn lemma_found_paths_none(resolved: Seq<Option<Seq<char>>>)
    requires
        forall|j: int| 0 <= j < resolved.len() ==> #[trigger] resolved[j] is None,
    ensures
        found_paths(resolved) == Seq::<Seq<char>>::empty(),
    decreases resolved.len(),
{
    if resolved.len() > 0 {
        let rest = resolved.drop_last();
        assert forall|j: int| 0 <= j < rest.len() implies #[trigger] rest[j] is None by {
            assert(rest[j] == resolved[j]);
        }
        lemma_found_paths_none(rest);
        assert(resolved[resolved.len() - 1] is None);
    }
}

/// Clipping only paths that do not exist adds nothing to the listing, and the
/// clip still succeeds: the store then exists.
pub proof fn lemma_clip_missing(store: Option<Seq<char>>, resolved: Seq<Option<Seq<char>>>)
    requires
        store_well_formed(store),
        forall|j: int| 0 <= j < resolved.len() ==> #[trigger] resolved[j] is None,
    ensures
        list_spec(clip_spec(store, resolved)) == list_spec(store),
        clip_spec(store, resolved) is Some,
{
    lemma_found_paths_none(resolved);
    lemma_clip_then_list(store, resolved);
    assert(list_spec(store) + Seq::<Seq<char>>::empty() == list_spec(store));
}

/// After an erase the store is gone, and listing it shows nothing.
pub proof fn lemma_erase_then_list(store: Option<Seq<char>>)
    ensures
        erase_spec(store) is None,
        list_spec(erase_spec(store)) == Seq::<Seq<char>>::empty(),
{
}

} // verus!
