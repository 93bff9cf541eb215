use vstd::prelude::*;

verus! {

/// `base` followed by `name`, with one `/` between them when `base` does not
/// already end in one. An empty base gives `name`, and an absolute `name`
/// replaces `base` altogether.
pub open spec fn join_spec(base: Seq<char>, name: Seq<char>) -> Seq<char> {
    if name.len() > 0 && name[0] == '/' {
        name
    } else if base.len() == 0 {
        name
    } else if base.last() == '/' {
        base + name
    } else {
        base + seq!['/'] + name
    }
}

/// The path with every trailing `/` removed.
pub open spec fn trim_trailing_slashes(p: Seq<char>) -> Seq<char>
    decreases p.len(),
{
    if p.len() > 0 && p.last() == '/' {
        trim_trailing_slashes(p.drop_last())
    } else {
        p
    }
}

/// The characters after the last `/` of `p` (all of `p` when it has none).
pub open spec fn last_segment(p: Seq<char>) -> Seq<char>
    decreases p.len(),
{
    if p.len() == 0 {
        p
    } else if p.last() == '/' {
        Seq::empty()
    } else {
        last_segment(p.drop_last()).push(p.last())
    }
}

/// The final component of a path: its last segment once trailing slashes are
/// gone. A path that ends in nothing, in `.` or in `..` has none.
pub open spec fn base_name_spec(p: Seq<char>) -> Option<Seq<char>> {
    let s = last_segment(trim_trailing_slashes(p));
    if s.len() == 0 || s == seq!['.'] || s == seq!['.', '.'] {
        None
    } else {
        Some(s)
    }
}

/// Appends `name` to the path `base`.
pub fn join(base: &str, name: &str) -> (r: String)
    ensures
        r@ == join_spec(base@, name@),
{
    let n = name.unicode_len();
    if n > 0 && name.get_char(0) == '/' {
        return String::from_str(name);
    }
    let b = base.unicode_len();
    if b == 0 {
        return String::from_str(name);
    }
    let mut r = String::from_str(base);
    if base.get_char(b - 1) != '/' {
        proof {
            reveal_strlit("/");
        }
        r.append("/");
    }
    r.append(name);
    r
}

proof fn lemma_trim_prefix(p: Seq<char>, end: int)
    requires
        0 <= end <= p.len(),
        forall|i: int| end <= i < p.len() ==> p[i] == '/',
    ensures
        trim_trailing_slashes(p) == trim_trailing_slashes(p.subrange(0, end)),
    decreases p.len() - end,
{
    if end < p.len() {
        assert(p.drop_last() == p.subrange(0, p.len() - 1));
        lemma_trim_prefix(p.drop_last(), end);
        assert(p.drop_last().subrange(0, end) == p.subrange(0, end));
    } else {
        assert(p.subrange(0, end) == p);
    }
}

proof fn lemma_last_segment_split(p: Seq<char>, start: int, end: int)
    requires
        0 <= start <= end <= p.len(),
        forall|i: int| start <= i < end ==> p[i] != '/',
    ensures
        last_segment(p.subrange(0, end)) == last_segment(p.subrange(0, start)) + p.subrange(
            start,
            end,
        ),
    decreases end - start,
{
    if start < end {
        lemma_last_segment_split(p, start, end - 1);
        let q = p.subrange(0, end);
        assert(q.drop_last() == p.subrange(0, end - 1));
        assert(q.last() == p[end - 1]);
        assert(p.subrange(start, end) == p.subrange(start, end - 1).push(p[end - 1]));
    } else {
        assert(p.subrange(start, end) == Seq::<char>::empty());
    }
}

/// The final component of `path`, if it has one.
pub fn base_name(path: &str) -> (r: Option<String>)
    ensures
        match r {
            Some(s) => base_name_spec(path@) == Some(s@),
            None => base_name_spec(path@).is_none(),
        },
{
    let ghost p = path@;
    let n = path.unicode_len();
    let mut end: usize = n;
    while end > 0 && path.get_char(end - 1) == '/'
        invariant
            0 <= end <= n,
            n == p.len(),
            p == path@,
            forall|i: int| end <= i < n ==> p[i] == '/',
        decreases end,
    {
        end = end - 1;
    }
    proof {
        lemma_trim_prefix(p, end as int);
        assert(trim_trailing_slashes(p.subrange(0, end as int)) == p.subrange(0, end as int));
    }
    let mut start: usize = end;
    while start > 0 && path.get_char(start - 1) != '/'
        invariant
            0 <= start <= end <= n,
            n == p.len(),
            p == path@,
            forall|i: int| start <= i < end ==> p[i] != '/',
        decreases start,
    {
        start = start - 1;
    }
    proof {
        lemma_last_segment_split(p, start as int, end as int);
        let q = p.subrange(0, start as int);
        if start > 0 {
            assert(q.last() == p[start - 1]);
        }
        assert(last_segment(q) == Seq::<char>::empty());
        assert(Seq::<char>::empty() + p.subrange(start as int, end as int) == p.subrange(
            start as int,
            end as int,
        ));
    }
    let seg = path.substring_char(start, end);
    let len = end - start;
    if len == 0 {
        return None;
    }
    if seg.get_char(0) == '.' {
        if len == 1 {
            assert(seg@ == seq!['.']);
            return None;
        }
        if len == 2 && seg.get_char(1) == '.' {
            assert(seg@ == seq!['.', '.']);
            return None;
        }
    }
    proof {
        if seg@ == seq!['.'] {
            assert(seg@[0] == '.');
        }
        if seg@ == seq!['.', '.'] {
            assert(seg@[1] == '.');
        }
    }
    Some(String::from_str(seg))
}

} // verus!
