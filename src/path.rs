use vstd::prelude::*;

verus! {

/// Unicode `White_Space`: the characters that `char::is_whitespace` accepts.
pub open spec fn is_space(c: char) -> bool {
    let u = c as u32;
    (0x9 <= u && u <= 0xd) || u == 0x20 || u == 0x85 || u == 0xa0 || u == 0x1680 || (0x2000 <= u
        && u <= 0x200a) || u == 0x2028 || u == 0x2029 || u == 0x202f || u == 0x205f || u == 0x3000
}

/// A segment made of white space only (the empty segment included).
pub open spec fn is_blank(s: Seq<char>) -> bool {
    forall|i: int| 0 <= i < s.len() ==> is_space(#[trigger] s[i])
}

pub open spec fn trim_start(s: Seq<char>) -> Seq<char>
    decreases s.len(),
{
    if s.len() > 0 && is_space(s[0]) {
        trim_start(s.drop_first())
    } else {
        s
    }
}

pub open spec fn trim_end(s: Seq<char>) -> Seq<char>
    decreases s.len(),
{
    if s.len() > 0 && is_space(s.last()) {
        trim_end(s.drop_last())
    } else {
        s
    }
}

/// `s` without its leading and trailing white space.
pub open spec fn trim(s: Seq<char>) -> Seq<char> {
    trim_end(trim_start(s))
}

/// The pieces of `t` between its slashes, empty pieces included: one more than there are slashes.
pub open spec fn pieces(t: Seq<char>) -> Seq<Seq<char>>
    decreases t.len(),
{
    if t.len() == 0 {
        seq![Seq::empty()]
    } else {
        let p = pieces(t.drop_last());
        if t.last() == '/' {
            p.push(Seq::empty())
        } else {
            p.update(p.len() - 1, p.last().push(t.last()))
        }
    }
}

/// The pieces of `p` that are not blank, in order.
pub open spec fn keep(p: Seq<Seq<char>>) -> Seq<Seq<char>>
    decreases p.len(),
{
    if p.len() == 0 {
        Seq::empty()
    } else if is_blank(p.last()) {
        keep(p.drop_last())
    } else {
        keep(p.drop_last()).push(p.last())
    }
}

/// The segments of a slash-delimited path text.
pub open spec fn parse(s: Seq<char>) -> Seq<Seq<char>> {
    keep(pieces(trim(s)))
}

proof fn lemma_pieces_nonempty(t: Seq<char>)
    ensures
        pieces(t).len() >= 1,
    decreases t.len(),
{
    if t.len() > 0 {
        lemma_pieces_nonempty(t.drop_last());
    }
}

proof fn lemma_keep_all(p: Seq<Seq<char>>)
    ensures
        forall|i: int| 0 <= i < keep(p).len() ==> !is_blank(#[trigger] keep(p)[i]),
    decreases p.len(),
{
    if p.len() > 0 {
        lemma_keep_all(p.drop_last());
        let k = keep(p.drop_last());
        if !is_blank(p.last()) {
            assert(keep(p) == k.push(p.last()));
            assert forall|i: int| 0 <= i < keep(p).len() implies !is_blank(#[trigger] keep(p)[i]) by {
                if i < k.len() {
                    assert(keep(p)[i] == k[i]);
                }
            }
        }
    }
}

/// Every segment of a parsed path holds a character other than white space.
pub proof fn lemma_parse_no_blank(s: Seq<char>)
    ensures
        forall|i: int| 0 <= i < parse(s).len() ==> !is_blank(#[trigger] parse(s)[i]),
{
    lemma_keep_all(pieces(trim(s)));
}

/// Whether `c` is white space, as `char::is_whitespace` decides it.
pub fn is_space_char(c: char) -> (r: bool)
    ensures
        r == is_space(c),
{
    let u = c as u32;
    (0x9 <= u && u <= 0xd) || u == 0x20 || u == 0x85 || u == 0xa0 || u == 0x1680 || (0x2000 <= u
        && u <= 0x200a) || u == 0x2028 || u == 0x2029 || u == 0x202f || u == 0x205f || u == 0x3000
}

fn is_blank_str(s: &str) -> (r: bool)
    ensures
        r == is_blank(s@),
{
    let n = s.unicode_len();
    let mut i: usize = 0;
    while i < n
        invariant
            n == s@.len(),
            i <= n,
            forall|j: int| 0 <= j < i ==> is_space(#[trigger] s@[j]),
        decreases n - i,
    {
        if !is_space_char(s.get_char(i)) {
            return false;
        }
        i = i + 1;
    }
    true
}

/// A namespace path: the ordered sequence of its non-blank segments.
#[derive(Debug, Clone)]
pub struct PathSplit {
    segs: Vec<String>,
}

impl View for PathSplit {
    type V = Seq<Seq<char>>;

    closed spec fn view(&self) -> Seq<Seq<char>> {
        self.segs@.map_values(|s: String| s@)
    }
}

impl PathSplit {
    /// Splits `path_str` on `/` after trimming it, and drops the blank segments.
    pub fn from_uri(path_str: &str) -> (r: PathSplit)
        ensures
            r@ == parse(path_str@),
    {
        let s = path_str;
        let n = s.unicode_len();
        let ghost full = s@;
        let mut a: usize = 0;
        assert(full.subrange(0, n as int) =~= full);
        while a < n && is_space_char(s.get_char(a))
            invariant
                n == full.len(),
                s@ == full,
                a <= n,
                trim_start(full) == trim_start(full.subrange(a as int, n as int)),
            decreases n - a,
        {
            assert(full.subrange(a as int, n as int).drop_first() =~= full.subrange(
                a as int + 1,
                n as int,
            ));
            a = a + 1;
        }
        assert(trim_start(full) == full.subrange(a as int, n as int));
        let ghost ts = full.subrange(a as int, n as int);
        let mut b: usize = n;
        while b > a && is_space_char(s.get_char(b - 1))
            invariant
                n == full.len(),
                s@ == full,
                a <= b <= n,
                ts == full.subrange(a as int, n as int),
                trim_end(ts) == trim_end(full.subrange(a as int, b as int)),
            decreases b,
        {
            assert(full.subrange(a as int, b as int).drop_last() =~= full.subrange(
                a as int,
                b as int - 1,
            ));
            b = b - 1;
        }
        let ghost t = full.subrange(a as int, b as int);
        assert(trim(full) == t);
        let mut segs: Vec<String> = Vec::new();
        let mut start: usize = a;
        let mut i: usize = a;
        proof {
            assert(t.subrange(0, 0) =~= Seq::<char>::empty());
        }
        while i < b
            invariant
                n == full.len(),
                s@ == full,
                a <= start <= i <= b <= n,
                t == full.subrange(a as int, b as int),
                pieces(t.subrange(0, i - a)).len() >= 1,
                pieces(t.subrange(0, i - a)).last() == full.subrange(start as int, i as int),
                segs@.map_values(|x: String| x@) == keep(pieces(t.subrange(0, i - a)).drop_last()),
            decreases b - i,
        {
            let c = s.get_char(i);
            let ghost p = pieces(t.subrange(0, i - a));
            let ghost q = t.subrange(0, i + 1 - a);
            assert(q.drop_last() =~= t.subrange(0, i - a));
            assert(q.last() == c);
            if c == '/' {
                let piece = s.substring_char(start, i);
                if !is_blank_str(piece) {
                    segs.push(piece.to_owned());
                }
                proof {
                    assert(pieces(q) == p.push(Seq::empty()));
                    assert(pieces(q).drop_last() =~= p);
                    assert(p =~= p.drop_last().push(p.last()));
                    assert(segs@.map_values(|x: String| x@) =~= keep(p));
                    assert(full.subrange(i + 1, i + 1) =~= Seq::<char>::empty());
                }
                start = i + 1;
            } else {
                proof {
                    assert(pieces(q).drop_last() =~= p.drop_last());
                    assert(full.subrange(start as int, i + 1) =~= full.subrange(
                        start as int,
                        i as int,
                    ).push(c));
                }
            }
            i = i + 1;
        }
        assert(t.subrange(0, b - a) =~= t);
        let piece = s.substring_char(start, b);
        let ghost p = pieces(t);
        assert(p =~= p.drop_last().push(p.last()));
        if !is_blank_str(piece) {
            segs.push(piece.to_owned());
        }
        assert(segs@.map_values(|x: String| x@) =~= keep(p));
        PathSplit { segs }
    }

    pub fn segs(&self) -> (r: &Vec<String>)
        ensures
            r@.map_values(|x: String| x@) == self@,
    {
        &self.segs
    }

    /// A copy of the path with the same segments.
    pub fn copied(&self) -> (r: PathSplit)
        ensures
            r@ == self@,
    {
        let segs = self.segs.clone();
        proof {
            assert forall|j: int| 0 <= j < segs@.len() implies segs@[j]@ == self.segs@[j]@ by {
                assert(cloned::<String>(self.segs[j], segs[j]));
            }
        }
        assert(segs@.map_values(|x: String| x@) =~= self@);
        PathSplit { segs }
    }

    pub fn len(&self) -> (r: usize)
        ensures
            r == self@.len(),
    {
        self.segs.len()
    }

    /// Whether the two paths have the same segments.
    pub fn same(&self, o: &PathSplit) -> (r: bool)
        ensures
            r == (self@ == o@),
    {
        assert(self@.len() == self.segs@.len() && o@.len() == o.segs@.len());
        if self.segs.len() != o.segs.len() {
            return false;
        }
        let mut i: usize = 0;
        while i < self.segs.len()
            invariant
                self.segs.len() == o.segs.len(),
                i <= self.segs.len(),
                forall|j: int| 0 <= j < i ==> self.segs@[j]@ == #[trigger] o.segs@[j]@,
            decreases self.segs.len() - i,
        {
            if self.segs[i] != o.segs[i] {
                assert(self@[i as int] != o@[i as int]);
                return false;
            }
            i = i + 1;
        }
        assert(self@ =~= o@);
        true
    }
}

impl PartialEq for PathSplit {
    fn eq(&self, o: &PathSplit) -> (r: bool) {
        self.same(o)
    }
}

impl vstd::std_specs::cmp::PartialEqSpecImpl for PathSplit {
    open spec fn obeys_eq_spec() -> bool {
        true
    }

    open spec fn eq_spec(&self, o: &PathSplit) -> bool {
        self@ == o@
    }
}

impl Eq for PathSplit {

}

/// A position in a non-empty path, used to descend the namespace tree one segment at a time.
#[derive(Debug)]
pub struct PathCursor {
    path_split: PathSplit,
    curr: usize,
}

impl PathCursor {
    #[verifier::type_invariant]
    spec fn inv(self) -> bool {
        self.curr < self.path_split@.len()
    }

    /// The segments from the current one to the last.
    pub closed spec fn rest(self) -> Seq<Seq<char>> {
        self.path_split@.skip(self.curr as int)
    }

    /// A cursor on the first segment; `None` for the empty path, which names the root itself.
    pub fn new(path_split: PathSplit) -> (r: Option<PathCursor>)
        ensures
            path_split@.len() == 0 <==> r is None,
            r matches Some(c) ==> c.rest() == path_split@,
    {
        if path_split.segs.len() == 0 {
            return None;
        }
        let c = PathCursor { path_split, curr: 0 };
        assert(c.rest() =~= c.path_split@);
        Some(c)
    }

    /// A cursor on the same segment of an equal path.
    pub fn copied(&self) -> (r: PathCursor)
        ensures
            r.rest() == self.rest(),
    {
        proof {
            use_type_invariant(self);
        }
        PathCursor { path_split: self.path_split.copied(), curr: self.curr }
    }

    /// The segment the cursor stands on.
    pub fn curr(&self) -> (r: &String)
        ensures
            self.rest().len() >= 1,
            r@ == self.rest()[0],
    {
        proof {
            use_type_invariant(self);
        }
        &self.path_split.segs[self.curr]
    }

    /// The cursor on the next segment; `None` when the current one is the last.
    pub fn next(&self) -> (r: Option<PathCursor>)
        ensures
            self.rest().len() >= 1,
            r is None <==> self.rest().len() == 1,
            r matches Some(c) ==> c.rest() == self.rest().drop_first(),
    {
        proof {
            use_type_invariant(self);
        }
        assert(self.path_split@.len() == self.path_split.segs@.len());
        let n = self.path_split.segs.len();
        if self.curr + 1 == n {
            return None;
        }
        let c = PathCursor { path_split: self.path_split.copied(), curr: self.curr + 1 };
        assert(c.rest() =~= self.rest().drop_first());
        Some(c)
    }
}

/// The segments that a cursor has still to descend; none for an absent cursor.
pub open spec fn remaining(c: Option<PathCursor>) -> Seq<Seq<char>> {
    match c {
        Some(c) => c.rest(),
        None => Seq::empty(),
    }
}

} // verus!
