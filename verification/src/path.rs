use vstd::prelude::*;
use vstd::string::*;

verus! {

/// The segment with its leading '0' characters removed.
pub open spec fn spec_trim_zeros(s: Seq<char>) -> Seq<char>
    decreases s.len(),
{
    if s.len() > 0 && s[0] == '0' {
        spec_trim_zeros(s.drop_first())
    } else {
        s
    }
}

/// The normal form of one path segment: leading zeros are stripped, and a
/// segment of nothing but zeros (or nothing at all) becomes "0". This is
/// applied to every segment alike, array indices and object keys both, so a
/// key that merely looks like a zero-padded number is rewritten too.
pub open spec fn spec_norm_segment(s: Seq<char>) -> Seq<char> {
    if spec_trim_zeros(s).len() == 0 {
        seq!['0']
    } else {
        spec_trim_zeros(s)
    }
}

/// The canonical pointer string of a segment sequence: each segment is
/// normalized and prefixed with '/'. An empty sequence gives the empty string,
/// which addresses the document root.
pub open spec fn spec_pointer(segs: Seq<Seq<char>>) -> Seq<char>
    decreases segs.len(),
{
    if segs.len() == 0 {
        Seq::empty()
    } else {
        seq!['/'] + spec_norm_segment(segs[0]) + spec_pointer(segs.drop_first())
    }
}

/// The character sequences of a stored segment sequence.
pub open spec fn path_views(p: Seq<String>) -> Seq<Seq<char>> {
    p.map_values(|s: String| s@)
}

proof fn lemma_trim_zeros_skip(s: Seq<char>, i: int)
    requires
        0 <= i <= s.len(),
        forall|j: int| 0 <= j < i ==> s[j] == '0',
        i == s.len() || s[i] != '0',
    ensures
        spec_trim_zeros(s) == s.subrange(i, s.len() as int),
    decreases i,
{
    if i == 0 {
        assert(spec_trim_zeros(s) =~= s.subrange(0, s.len() as int));
    } else {
        assert(s[0] == '0');
        lemma_trim_zeros_skip(s.drop_first(), i - 1);
        assert(s.drop_first().subrange(i - 1, s.drop_first().len() as int) =~= s.subrange(
            i,
            s.len() as int,
        ));
    }
}

/// The head of a trimmed segment is never '0'.
proof fn lemma_trim_zeros_head(s: Seq<char>)
    ensures
        spec_trim_zeros(s).len() == 0 || spec_trim_zeros(s)[0] != '0',
    decreases s.len(),
{
    if s.len() > 0 && s[0] == '0' {
        lemma_trim_zeros_head(s.drop_first());
    }
}

/// Normalizing a segment a second time changes nothing.
pub proof fn lemma_norm_segment_idempotent(s: Seq<char>)
    ensures
        spec_norm_segment(spec_norm_segment(s)) == spec_norm_segment(s),
{
    lemma_trim_zeros_head(s);
    let t = spec_trim_zeros(s);
    if t.len() == 0 {
        assert(spec_norm_segment(s) == seq!['0']);
        assert(seq!['0'].drop_first() =~= Seq::<char>::empty());
        assert(spec_trim_zeros(Seq::<char>::empty()) =~= Seq::<char>::empty());
        assert(spec_trim_zeros(seq!['0']) =~= Seq::<char>::empty());
    } else {
        assert(spec_norm_segment(s) == t);
        assert(spec_trim_zeros(t) == t);
    }
}

/// A pointer grows segment by segment at its end.
pub proof fn lemma_pointer_push(v: Seq<Seq<char>>, x: Seq<char>)
    ensures
        spec_pointer(v.push(x)) == spec_pointer(v) + seq!['/'] + spec_norm_segment(x),
    decreases v.len(),
{
    if v.len() == 0 {
        assert(v.push(x)[0] == x);
        assert(v.push(x).drop_first() =~= Seq::<Seq<char>>::empty());
        assert(spec_pointer(Seq::<Seq<char>>::empty()) =~= Seq::<char>::empty());
        assert(spec_pointer(v.push(x)) =~= spec_pointer(v) + seq!['/'] + spec_norm_segment(x));
    } else {
        assert(v.push(x).drop_first() =~= v.drop_first().push(x));
        lemma_pointer_push(v.drop_first(), x);
        assert(spec_pointer(v.push(x)) =~= spec_pointer(v) + seq!['/'] + spec_norm_segment(x));
    }
}

/// Building a pointer from segments that are already in normal form gives the
/// same pointer as building it from the originals: normalization done by an
/// earlier step is absorbed by the one done at encoding time.
pub proof fn lemma_pointer_idempotent(segs: Seq<Seq<char>>)
    ensures
        spec_pointer(segs.map_values(|s: Seq<char>| spec_norm_segment(s))) == spec_pointer(segs),
    decreases segs.len(),
{
    let f = |s: Seq<char>| spec_norm_segment(s);
    if segs.len() == 0 {
        assert(segs.map_values(f) =~= Seq::<Seq<char>>::empty());
    } else {
        lemma_pointer_idempotent(segs.drop_first());
        lemma_norm_segment_idempotent(segs[0]);
        assert(segs.map_values(f).drop_first() =~= segs.drop_first().map_values(f));
        assert(segs.map_values(f)[0] == spec_norm_segment(segs[0]));
        assert(spec_pointer(segs.map_values(f)) =~= spec_pointer(segs));
    }
}

/// Strips leading zeros from one segment; a segment of nothing but zeros
/// becomes "0".
pub fn norm_segment(s: &str) -> (r: String)
    ensures
        r@ == spec_norm_segment(s@),
{
    let len = s.unicode_len();
    let mut i: usize = 0;
    while i < len && s.get_char(i) == '0'
        invariant
            i <= len,
            len == s@.len(),
            forall|j: int| 0 <= j < i ==> s@[j] == '0',
        decreases len - i,
    {
        i = i + 1;
    }
    proof {
        lemma_trim_zeros_skip(s@, i as int);
    }
    if i == len {
        proof {
            reveal_strlit("0");
            assert(("0")@ =~= seq!['0']);
            assert(s@.subrange(len as int, len as int) =~= Seq::<char>::empty());
        }
        String::from_str("0")
    } else {
        let r = s.substring_char(i, len);
        String::from_str(r)
    }
}

/// Encodes a segment sequence as a canonical remote pointer: every segment is
/// normalized and written behind '/'.
pub fn canonicalize(segs: &Vec<String>) -> (p: String)
    ensures
        p@ == spec_pointer(segs@.map_values(|s: String| s@)),
{
    let ghost views = segs@.map_values(|s: String| s@);
    let mut p = String::new();
    let mut k: usize = 0;
    proof {
        reveal_strlit("/");
        assert(views.take(0) =~= Seq::<Seq<char>>::empty());
    }
    while k < segs.len()
        invariant
            k <= segs.len(),
            views == segs@.map_values(|s: String| s@),
            views.len() == segs@.len(),
            p@ == spec_pointer(views.take(k as int)),
            ("/")@ =~= seq!['/'],
        decreases segs.len() - k,
    {
        p.append("/");
        let n = norm_segment(segs[k].as_str());
        p.append(n.as_str());
        proof {
            lemma_pointer_push(views.take(k as int), views[k as int]);
            assert(views.take(k as int).push(views[k as int]) =~= views.take(k + 1 as int));
            assert(p@ =~= spec_pointer(views.take(k + 1 as int)));
        }
        k = k + 1;
    }
    proof {
        assert(views.take(segs@.len() as int) =~= views);
    }
    p
}

} // verus!
