use vstd::prelude::*;
use vstd::string::*;
use crate::digits::{
    hex_char, parse_index, padded_key, push_hex, spec_decimal, spec_digits_val, spec_is_index,
    spec_padded, usize_to_string,
};
use crate::errors::AppError;
use crate::text::push_char;

verus! {

/// The mathematical JSON tree that the contracts speak of.
#[verifier::ext_equal]
pub enum JsonVal {
    Null,
    Bool(bool),
    Num(Seq<char>),
    Text(Seq<char>),
    Arr(Seq<JsonVal>),
    Obj(Seq<(Seq<char>, JsonVal)>),
}

/// A JSON document as held in memory: a tagged value. Object keys keep their
/// stored order. A number keeps the decimal text it was read with, so the tree
/// carries exactly what is shown and written back.
#[derive(Debug)]
pub enum JsonNode {
    Null,
    Bool(bool),
    Num(String),
    Text(String),
    Arr(Vec<JsonNode>),
    Obj(Vec<(String, JsonNode)>),
}

/// The abstraction of a sequence of nodes, element by element.
pub open spec fn nodes_view(s: Seq<JsonNode>) -> Seq<JsonVal>
    decreases s,
{
    if s.len() == 0 {
        Seq::empty()
    } else {
        seq![node_view(s[0])] + nodes_view(s.drop_first())
    }
}

/// The abstraction of a sequence of key-value pairs, element by element.
pub open spec fn pairs_view(s: Seq<(String, JsonNode)>) -> Seq<(Seq<char>, JsonVal)>
    decreases s,
{
    if s.len() == 0 {
        Seq::empty()
    } else {
        seq![(s[0].0@, node_view(s[0].1))] + pairs_view(s.drop_first())
    }
}

/// The abstraction of a node.
pub open spec fn node_view(n: JsonNode) -> JsonVal
    decreases n,
{
    match n {
        JsonNode::Null => JsonVal::Null,
        JsonNode::Bool(b) => JsonVal::Bool(b),
        JsonNode::Num(t) => JsonVal::Num(t@),
        JsonNode::Text(t) => JsonVal::Text(t@),
        JsonNode::Arr(v) => JsonVal::Arr(nodes_view(v@)),
        JsonNode::Obj(v) => JsonVal::Obj(pairs_view(v@)),
    }
}

impl View for JsonNode {
    type V = JsonVal;

    open spec fn view(&self) -> JsonVal {
        node_view(*self)
    }
}

pub proof fn lemma_nodes_view(s: Seq<JsonNode>)
    ensures
        nodes_view(s).len() == s.len(),
        forall|i: int| 0 <= i < s.len() ==> nodes_view(s)[i] == node_view(s[i]),
    decreases s.len(),
{
    if s.len() > 0 {
        lemma_nodes_view(s.drop_first());
    }
}

pub proof fn lemma_pairs_view(s: Seq<(String, JsonNode)>)
    ensures
        pairs_view(s).len() == s.len(),
        forall|i: int| 0 <= i < s.len() ==> pairs_view(s)[i] == (s[i].0@, node_view(s[i].1)),
    decreases s.len(),
{
    if s.len() > 0 {
        lemma_pairs_view(s.drop_first());
    }
}

/// Whether a value can be entered: only arrays and objects have children.
pub open spec fn spec_is_container(v: JsonVal) -> bool {
    v is Arr || v is Obj
}

/// The first value stored under a key, in stored order.
pub open spec fn spec_obj_lookup(ps: Seq<(Seq<char>, JsonVal)>, k: Seq<char>) -> Option<JsonVal>
    decreases ps.len(),
{
    if ps.len() == 0 {
        None
    } else if ps[0].0 == k {
        Some(ps[0].1)
    } else {
        spec_obj_lookup(ps.drop_first(), k)
    }
}

/// The node a pointer path leads to: objects are entered by key, arrays by a
/// segment read as an index (digits only, no leading zero unless "0").
pub open spec fn spec_resolve(v: JsonVal, path: Seq<Seq<char>>) -> Option<JsonVal>
    decreases path.len(),
{
    if path.len() == 0 {
        Some(v)
    } else {
        match v {
            JsonVal::Obj(ps) => match spec_obj_lookup(ps, path[0]) {
                Some(c) => spec_resolve(c, path.drop_first()),
                None => None,
            },
            JsonVal::Arr(es) => if spec_is_index(path[0]) && spec_digits_val(path[0]) < es.len() {
                spec_resolve(es[spec_digits_val(path[0]) as int], path.drop_first())
            } else {
                None
            },
            _ => None,
        }
    }
}

/// The ordered key-to-child mapping shown for a focused value: an object lists
/// its pairs in stored order; an array of length n lists its elements under
/// their indices written in decimal, left-padded with zeros to the width of
/// n's decimal form. Scalars have no view.
pub open spec fn spec_view_entries(v: JsonVal) -> Option<Seq<(Seq<char>, JsonVal)>> {
    match v {
        JsonVal::Obj(ps) => Some(ps),
        JsonVal::Arr(es) => Some(
            Seq::new(
                es.len(),
                |i: int| (spec_padded(i as nat, spec_decimal(es.len()).len()), es[i]),
            ),
        ),
        _ => None,
    }
}

/// For an array of length n, the view keys are exactly the decimal forms of
/// the indices 0..n-1, each left-padded with zeros to the width of n's own
/// decimal form; every key has that width, reads back as its index, and the
/// keys' lexicographic order is the numeric order of the indices.
pub proof fn lemma_array_view_keys(es: Seq<JsonVal>)
    ensures
        ({
            let entries = spec_view_entries(JsonVal::Arr(es))->Some_0;
            let width = spec_decimal(es.len()).len();
            &&& entries.len() == es.len()
            &&& forall|i: int|
                0 <= i < es.len() ==> (#[trigger] entries[i]).0 == spec_padded(i as nat, width)
            &&& forall|i: int| 0 <= i < es.len() ==> (#[trigger] entries[i]).0.len() == width
            &&& forall|i: int|
                0 <= i < es.len() ==> spec_digits_val((#[trigger] entries[i]).0) == i
            &&& forall|i: int, j: int|
                0 <= i < es.len() && 0 <= j < es.len() ==> (crate::digits::lex_lt(
                    (#[trigger] entries[i]).0,
                    (#[trigger] entries[j]).0,
                ) <==> i < j)
        }),
{
    let entries = spec_view_entries(JsonVal::Arr(es))->Some_0;
    let width = spec_decimal(es.len()).len();
    assert forall|i: int| 0 <= i < es.len() implies {
        &&& (#[trigger] entries[i]).0 == spec_padded(i as nat, width)
        &&& entries[i].0.len() == width
        &&& spec_digits_val(entries[i].0) == i
        &&& forall|k: int|
            0 <= k < entries[i].0.len() ==> crate::digits::is_digit(#[trigger] entries[i].0[k])
    } by {
        crate::digits::lemma_padded_key_facts(i as nat, es.len());
    }
    assert forall|i: int, j: int|
        0 <= i < es.len() && 0 <= j < es.len() implies (crate::digits::lex_lt(
        entries[i].0,
        entries[j].0,
    ) <==> i < j) by {
        crate::digits::lemma_padded_key_facts(i as nat, es.len());
        crate::digits::lemma_padded_key_facts(j as nat, es.len());
        crate::digits::lemma_lex_is_numeric(entries[i].0, entries[j].0);
    }
}

impl JsonNode {
    /// Whether this node can be entered.
    pub fn is_container(&self) -> (b: bool)
        ensures
            b == spec_is_container(self@),
    {
        match self {
            JsonNode::Arr(_) => true,
            JsonNode::Obj(_) => true,
            _ => false,
        }
    }

    /// Follows a pointer path from this node, or reports that some segment
    /// does not resolve.
    pub fn resolve<'a>(&'a self, path: &Vec<String>) -> (r: Result<&'a JsonNode, AppError>)
        ensures
            match r {
                Ok(c) => spec_resolve(self@, crate::path::path_views(path@)) == Some(c@),
                Err(e) => {
                    &&& e == AppError::PointerResolution
                    &&& spec_resolve(self@, crate::path::path_views(path@)) is None
                },
            },
    {
        let ghost views = crate::path::path_views(path@);
        let mut cur: &JsonNode = self;
        let mut k: usize = 0;
        proof {
            assert(views.skip(0) =~= views);
        }
        while k < path.len()
            invariant
                k <= path.len(),
                views == crate::path::path_views(path@),
                views.len() == path@.len(),
                spec_resolve(self@, views) == spec_resolve(cur@, views.skip(k as int)),
            decreases path.len() - k,
        {
            let seg = &path[k];
            proof {
                assert(views.skip(k as int)[0] == seg@);
                assert(views.skip(k as int).drop_first() =~= views.skip(k + 1 as int));
            }
            match cur {
                JsonNode::Obj(ps) => {
                    match obj_get(ps, seg) {
                        Some(c) => {
                            cur = c;
                        },
                        None => {
                            return Err(AppError::PointerResolution);
                        },
                    }
                },
                JsonNode::Arr(es) => {
                    proof {
                        lemma_nodes_view(es@);
                        assert(cur@ == JsonVal::Arr(nodes_view(es@)));
                    }
                    let n = es.len();
                    let parsed = parse_index(seg.as_str());
                    match parsed {
                        Some(i) => {
                            if i < n {
                                cur = &es[i];
                            } else {
                                return Err(AppError::PointerResolution);
                            }
                        },
                        None => {
                            return Err(AppError::PointerResolution);
                        },
                    }
                },
                _ => {
                    return Err(AppError::PointerResolution);
                },
            }
            k = k + 1;
        }
        proof {
            assert(views.skip(path@.len() as int) =~= Seq::<Seq<char>>::empty());
        }
        Ok(cur)
    }

    /// Computes the view of this node: display keys paired with the children
    /// they name, in display order. Fails on a scalar.
    pub fn view_entries<'a>(&'a self) -> (r: Result<Vec<(String, &'a JsonNode)>, AppError>)
        ensures
            match r {
                Ok(v) => {
                    &&& spec_view_entries(self@) is Some
                    &&& v@.len() == spec_view_entries(self@)->Some_0.len()
                    &&& forall|i: int|
                        0 <= i < v@.len() ==> (#[trigger] v@[i]).0@ == spec_view_entries(
                            self@,
                        )->Some_0[i].0
                    &&& forall|i: int|
                        0 <= i < v@.len() ==> (#[trigger] v@[i]).1@ == spec_view_entries(
                            self@,
                        )->Some_0[i].1
                },
                Err(e) => {
                    &&& e == AppError::TypeMismatch
                    &&& spec_view_entries(self@) is None
                    &&& !spec_is_container(self@)
                },
            },
    {
        match self {
            JsonNode::Obj(ps) => {
                proof {
                    lemma_pairs_view(ps@);
                }
                let mut out: Vec<(String, &JsonNode)> = Vec::new();
                let mut i: usize = 0;
                while i < ps.len()
                    invariant
                        i <= ps.len(),
                        self@ == JsonVal::Obj(pairs_view(ps@)),
                        pairs_view(ps@).len() == ps@.len(),
                        forall|j: int|
                            0 <= j < ps@.len() ==> pairs_view(ps@)[j] == (
                                ps@[j].0@,
                                node_view(ps@[j].1),
                            ),
                        out@.len() == i,
                        forall|j: int|
                            0 <= j < i ==> (#[trigger] out@[j]).0@ == pairs_view(ps@)[j].0,
                        forall|j: int|
                            0 <= j < i ==> (#[trigger] out@[j]).1@ == pairs_view(ps@)[j].1,
                    decreases ps.len() - i,
                {
                    let p = &ps[i];
                    out.push((p.0.clone(), &p.1));
                    i = i + 1;
                }
                Ok(out)
            },
            JsonNode::Arr(es) => {
                proof {
                    lemma_nodes_view(es@);
                }
                let width = usize_to_string(es.len()).as_str().unicode_len();
                let ghost sv = spec_view_entries(self@)->Some_0;
                proof {
                    assert(width as nat == spec_decimal(es@.len()).len());
                }
                let mut out: Vec<(String, &JsonNode)> = Vec::new();
                let mut i: usize = 0;
                while i < es.len()
                    invariant
                        i <= es.len(),
                        self@ == JsonVal::Arr(nodes_view(es@)),
                        nodes_view(es@).len() == es@.len(),
                        forall|j: int|
                            0 <= j < es@.len() ==> nodes_view(es@)[j] == node_view(es@[j]),
                        sv == spec_view_entries(self@)->Some_0,
                        sv.len() == es@.len(),
                        forall|j: int|
                            0 <= j < es@.len() ==> #[trigger] sv[j] == (
                                spec_padded(j as nat, width as nat),
                                nodes_view(es@)[j],
                            ),
                        out@.len() == i,
                        forall|j: int| 0 <= j < i ==> (#[trigger] out@[j]).0@ == sv[j].0,
                        forall|j: int| 0 <= j < i ==> (#[trigger] out@[j]).1@ == sv[j].1,
                    decreases es.len() - i,
                {
                    let key = padded_key(i, width);
                    out.push((key, &es[i]));
                    i = i + 1;
                }
                Ok(out)
            },
            _ => Err(AppError::TypeMismatch),
        }
    }

    /// The compact written form of this node.
    pub fn render(&self) -> (s: String)
        ensures
            s@ == spec_render(self@),
    {
        let mut out = String::new();
        render_into(self, &mut out);
        out
    }
}

/// Looks a key up among an object's pairs, first match in stored order.
fn obj_get<'a>(ps: &'a Vec<(String, JsonNode)>, key: &String) -> (r: Option<&'a JsonNode>)
    ensures
        match r {
            Some(c) => spec_obj_lookup(pairs_view(ps@), key@) == Some(c@),
            None => spec_obj_lookup(pairs_view(ps@), key@) is None,
        },
{
    proof {
        lemma_pairs_view(ps@);
    }
    let mut j: usize = 0;
    proof {
        assert(pairs_view(ps@).skip(0) =~= pairs_view(ps@));
    }
    while j < ps.len()
        invariant
            j <= ps.len(),
            pairs_view(ps@).len() == ps@.len(),
            forall|i: int|
                0 <= i < ps@.len() ==> pairs_view(ps@)[i] == (ps@[i].0@, node_view(ps@[i].1)),
            spec_obj_lookup(pairs_view(ps@), key@) == spec_obj_lookup(
                pairs_view(ps@).skip(j as int),
                key@,
            ),
        decreases ps.len() - j,
    {
        let p = &ps[j];
        proof {
            assert(pairs_view(ps@).skip(j as int)[0] == pairs_view(ps@)[j as int]);
            assert(pairs_view(ps@).skip(j as int).drop_first() =~= pairs_view(ps@).skip(
                j + 1 as int,
            ));
        }
        if p.0 == *key {
            return Some(&p.1);
        }
        j = j + 1;
    }
    proof {
        assert(pairs_view(ps@).skip(ps@.len() as int) =~= Seq::<(Seq<char>, JsonVal)>::empty());
    }
    None
}

/// How one character is written inside a JSON string: quote and backslash get
/// a backslash, the short control escapes are used where they exist, any other
/// control character is written as a four-digit hexadecimal escape, and
/// everything else stands as it is.
pub open spec fn spec_escape_char(c: char) -> Seq<char> {
    if c == '"' {
        seq!['\\', '"']
    } else if c == '\\' {
        seq!['\\', '\\']
    } else if c == '\u{8}' {
        seq!['\\', 'b']
    } else if c == '\u{9}' {
        seq!['\\', 't']
    } else if c == '\u{A}' {
        seq!['\\', 'n']
    } else if c == '\u{C}' {
        seq!['\\', 'f']
    } else if c == '\u{D}' {
        seq!['\\', 'r']
    } else if (c as u32) < 32 {
        seq!['\\', 'u', '0', '0', hex_char((c as u32 / 16) as nat), hex_char(
            (c as u32 % 16) as nat,
        )]
    } else {
        seq![c]
    }
}

/// A string's characters written one after the other, each escaped.
pub open spec fn spec_escape(s: Seq<char>) -> Seq<char>
    decreases s.len(),
{
    if s.len() == 0 {
        Seq::empty()
    } else {
        spec_escape_char(s[0]) + spec_escape(s.drop_first())
    }
}

pub proof fn lemma_escape_push(t: Seq<char>, c: char)
    ensures
        spec_escape(t.push(c)) == spec_escape(t) + spec_escape_char(c),
    decreases t.len(),
{
    if t.len() == 0 {
        assert(t.push(c).drop_first() =~= Seq::<char>::empty());
        assert(spec_escape(Seq::<char>::empty()) == Seq::<char>::empty());
        assert(spec_escape(t.push(c)) =~= spec_escape(t) + spec_escape_char(c));
    } else {
        assert(t.push(c).drop_first() =~= t.drop_first().push(c));
        lemma_escape_push(t.drop_first(), c);
        assert(spec_escape(t.push(c)) =~= spec_escape(t) + spec_escape_char(c));
    }
}

/// The compact written form of a value: no spaces, object keys quoted and
/// escaped, elements and pairs joined with commas, a number written with the
/// text it keeps.
pub open spec fn spec_render(v: JsonVal) -> Seq<char>
    decreases v,
{
    match v {
        JsonVal::Null => seq!['n', 'u', 'l', 'l'],
        JsonVal::Bool(b) => if b {
            seq!['t', 'r', 'u', 'e']
        } else {
            seq!['f', 'a', 'l', 's', 'e']
        },
        JsonVal::Num(t) => t,
        JsonVal::Text(t) => seq!['"'] + spec_escape(t) + seq!['"'],
        JsonVal::Arr(es) => seq!['['] + spec_render_items(es) + seq![']'],
        JsonVal::Obj(ps) => seq!['{'] + spec_render_pairs(ps) + seq!['}'],
    }
}

/// Array elements joined with commas.
pub open spec fn spec_render_items(es: Seq<JsonVal>) -> Seq<char>
    decreases es,
{
    if es.len() == 0 {
        Seq::empty()
    } else if es.len() == 1 {
        spec_render(es[0])
    } else {
        spec_render(es[0]) + seq![','] + spec_render_items(es.drop_first())
    }
}

/// One object pair: the quoted, escaped key, a colon, and the value.
pub open spec fn spec_render_pair(p: (Seq<char>, JsonVal)) -> Seq<char>
    decreases p,
{
    seq!['"'] + spec_escape(p.0) + seq!['"', ':'] + spec_render(p.1)
}

/// Object pairs joined with commas.
pub open spec fn spec_render_pairs(ps: Seq<(Seq<char>, JsonVal)>) -> Seq<char>
    decreases ps,
{
    if ps.len() == 0 {
        Seq::empty()
    } else if ps.len() == 1 {
        spec_render_pair(ps[0])
    } else {
        spec_render_pair(ps[0]) + seq![','] + spec_render_pairs(ps.drop_first())
    }
}

pub proof fn lemma_render_items_push(es: Seq<JsonVal>, x: JsonVal)
    ensures
        spec_render_items(es.push(x)) == if es.len() == 0 {
            spec_render(x)
        } else {
            spec_render_items(es) + seq![','] + spec_render(x)
        },
    decreases es.len(),
{
    if es.len() == 0 {
        assert(es.push(x)[0] == x);
    } else if es.len() == 1 {
        assert(es.push(x).drop_first() =~= seq![x]);
        assert(spec_render_items(seq![x]) == spec_render(x));
        assert(spec_render_items(es) == spec_render(es[0]));
        assert(es.push(x)[0] == es[0]);
    } else {
        assert(es.push(x).drop_first() =~= es.drop_first().push(x));
        lemma_render_items_push(es.drop_first(), x);
        assert(spec_render_items(es.push(x)) =~= spec_render_items(es) + seq![','] + spec_render(
            x,
        ));
    }
}

pub proof fn lemma_render_pairs_push(ps: Seq<(Seq<char>, JsonVal)>, x: (Seq<char>, JsonVal))
    ensures
        spec_render_pairs(ps.push(x)) == if ps.len() == 0 {
            spec_render_pair(x)
        } else {
            spec_render_pairs(ps) + seq![','] + spec_render_pair(x)
        },
    decreases ps.len(),
{
    if ps.len() == 0 {
        assert(ps.push(x)[0] == x);
    } else if ps.len() == 1 {
        assert(ps.push(x).drop_first() =~= seq![x]);
        assert(spec_render_pairs(seq![x]) == spec_render_pair(x));
        assert(spec_render_pairs(ps) == spec_render_pair(ps[0]));
        assert(ps.push(x)[0] == ps[0]);
    } else {
        assert(ps.push(x).drop_first() =~= ps.drop_first().push(x));
        lemma_render_pairs_push(ps.drop_first(), x);
        assert(spec_render_pairs(ps.push(x)) =~= spec_render_pairs(ps) + seq![',']
            + spec_render_pair(x));
    }
}

/// Appends one character in its escaped written form.
fn escape_char_into(out: &mut String, c: char)
    ensures
        final(out)@ == old(out)@ + spec_escape_char(c),
{
    if c == '"' {
        proof {
            reveal_strlit("\\\"");
        }
        out.append("\\\"");
        proof {
            assert(out@ =~= old(out)@ + spec_escape_char(c));
        }
    } else if c == '\\' {
        proof {
            reveal_strlit("\\\\");
        }
        out.append("\\\\");
        proof {
            assert(out@ =~= old(out)@ + spec_escape_char(c));
        }
    } else if c == '\u{8}' {
        proof {
            reveal_strlit("\\b");
        }
        out.append("\\b");
        proof {
            assert(out@ =~= old(out)@ + spec_escape_char(c));
        }
    } else if c == '\u{9}' {
        proof {
            reveal_strlit("\\t");
        }
        out.append("\\t");
        proof {
            assert(out@ =~= old(out)@ + spec_escape_char(c));
        }
    } else if c == '\u{A}' {
        proof {
            reveal_strlit("\\n");
        }
        out.append("\\n");
        proof {
            assert(out@ =~= old(out)@ + spec_escape_char(c));
        }
    } else if c == '\u{C}' {
        proof {
            reveal_strlit("\\f");
        }
        out.append("\\f");
        proof {
            assert(out@ =~= old(out)@ + spec_escape_char(c));
        }
    } else if c == '\u{D}' {
        proof {
            reveal_strlit("\\r");
        }
        out.append("\\r");
        proof {
            assert(out@ =~= old(out)@ + spec_escape_char(c));
        }
    } else {
        let code = c as u32;
        if code < 32 {
            proof {
                reveal_strlit("\\u00");
            }
            out.append("\\u00");
            push_hex(out, code / 16);
            push_hex(out, code % 16);
            proof {
                assert(out@ =~= old(out)@ + spec_escape_char(c));
            }
        } else {
            push_char(out, c);
            proof {
                assert(out@ =~= old(out)@ + spec_escape_char(c));
            }
        }
    }
}

/// Appends a string's characters, each escaped.
fn escape_into(s: &str, out: &mut String)
    ensures
        final(out)@ == old(out)@ + spec_escape(s@),
{
    let ghost base = out@;
    let len = s.unicode_len();
    let mut i: usize = 0;
    proof {
        assert(s@.take(0) =~= Seq::<char>::empty());
        assert(out@ =~= base + spec_escape(s@.take(0)));
    }
    while i < len
        invariant
            i <= len,
            len == s@.len(),
            out@ == base + spec_escape(s@.take(i as int)),
        decreases len - i,
    {
        let c = s.get_char(i);
        escape_char_into(out, c);
        proof {
            lemma_escape_push(s@.take(i as int), c);
            assert(s@.take(i as int).push(c) =~= s@.take(i + 1 as int));
        }
        i = i + 1;
    }
    proof {
        assert(s@.take(len as int) =~= s@);
        assert(base == old(out)@);
    }
}

/// Appends the compact written form of a node.
#[verifier::loop_isolation(false)]
pub fn render_into(n: &JsonNode, out: &mut String)
    ensures
        final(out)@ == old(out)@ + spec_render(n@),
    decreases n,
{
    match n {
        JsonNode::Null => {
            proof {
                reveal_strlit("null");
            }
            out.append("null");
            proof {
                assert(out@ =~= old(out)@ + spec_render(n@));
            }
        },
        JsonNode::Bool(b) => {
            if *b {
                proof {
                    reveal_strlit("true");
                }
                out.append("true");
                proof {
                    assert(out@ =~= old(out)@ + spec_render(n@));
                }
            } else {
                proof {
                    reveal_strlit("false");
                }
                out.append("false");
                proof {
                    assert(out@ =~= old(out)@ + spec_render(n@));
                }
            }
        },
        JsonNode::Num(t) => {
            out.append(t.as_str());
            proof {
                assert(out@ =~= old(out)@ + spec_render(n@));
            }
        },
        JsonNode::Text(t) => {
            proof {
                reveal_strlit("\"");
            }
            out.append("\"");
            escape_into(t.as_str(), out);
            out.append("\"");
            proof {
                assert(out@ =~= old(out)@ + spec_render(n@));
            }
        },
        JsonNode::Arr(es) => {
            proof {
                lemma_nodes_view(es@);
                reveal_strlit("[");
                reveal_strlit("]");
            }
            let ghost ev = nodes_view(es@);
            out.append("[");
            let ghost base = out@;
            proof {
                assert(ev.take(0) =~= Seq::<JsonVal>::empty());
                assert(out@ =~= base + spec_render_items(ev.take(0)));
            }
            let mut i: usize = 0;
            while i < es.len()
                invariant
                    i <= es.len(),
                    ev == nodes_view(es@),
                    ev.len() == es@.len(),
                    forall|j: int| 0 <= j < es@.len() ==> ev[j] == node_view(es@[j]),
                    out@ == base + spec_render_items(ev.take(i as int)),
                decreases es.len() - i,
            {
                if i > 0 {
                    proof {
                        reveal_strlit(",");
                    }
                    out.append(",");
                }
                proof {
                    assert(decreases_to!(*n => *es));
                    assert(decreases_to!(*es => es@));
                    assert(decreases_to!(es@ => es@[i as int]));
                }
                render_into(&es[i], out);
                proof {
                    lemma_render_items_push(ev.take(i as int), ev[i as int]);
                    assert(ev.take(i as int).push(ev[i as int]) =~= ev.take(i + 1 as int));
                    assert(out@ =~= base + spec_render_items(ev.take(i + 1 as int)));
                }
                i = i + 1;
            }
            proof {
                assert(ev.take(es@.len() as int) =~= ev);
                reveal_strlit("]");
            }
            out.append("]");
            proof {
                assert(n@ == JsonVal::Arr(ev));
                assert(out@ =~= old(out)@ + spec_render(n@));
            }
        },
        JsonNode::Obj(ps) => {
            proof {
                lemma_pairs_view(ps@);
                reveal_strlit("{");
                reveal_strlit("}");
            }
            let ghost pv = pairs_view(ps@);
            out.append("{");
            let ghost base = out@;
            proof {
                assert(pv.take(0) =~= Seq::<(Seq<char>, JsonVal)>::empty());
                assert(out@ =~= base + spec_render_pairs(pv.take(0)));
            }
            let mut i: usize = 0;
            while i < ps.len()
                invariant
                    i <= ps.len(),
                    pv == pairs_view(ps@),
                    pv.len() == ps@.len(),
                    forall|j: int|
                        0 <= j < ps@.len() ==> pv[j] == (ps@[j].0@, node_view(ps@[j].1)),
                    out@ == base + spec_render_pairs(pv.take(i as int)),
                decreases ps.len() - i,
            {
                if i > 0 {
                    proof {
                        reveal_strlit(",");
                    }
                    out.append(",");
                }
                let ghost mid = out@;
                let p = &ps[i];
                proof {
                    reveal_strlit("\"");
                    reveal_strlit("\":");
                }
                out.append("\"");
                escape_into(p.0.as_str(), out);
                out.append("\":");
                proof {
                    assert(decreases_to!(*n => *ps));
                    assert(decreases_to!(*ps => ps@));
                    assert(decreases_to!(ps@ => ps@[i as int]));
                    assert(decreases_to!(ps@[i as int] => ps@[i as int].1));
                }
                render_into(&p.1, out);
                proof {
                    lemma_render_pairs_push(pv.take(i as int), pv[i as int]);
                    assert(pv.take(i as int).push(pv[i as int]) =~= pv.take(i + 1 as int));
                    assert(out@ =~= mid + spec_render_pair(pv[i as int]));
                    assert(out@ =~= base + spec_render_pairs(pv.take(i + 1 as int)));
                }
                i = i + 1;
            }
            proof {
                assert(pv.take(ps@.len() as int) =~= pv);
                reveal_strlit("}");
            }
            out.append("}");
            proof {
                assert(n@ == JsonVal::Obj(pv));
                assert(out@ =~= old(out)@ + spec_render(n@));
            }
        },
    }
}

/// Whether a piece of text is a JSON document that the remote store's data
/// model accepts. Named after what serde_json's parser accepts; the library
/// never states what this holds of given text.
pub uninterp spec fn json_wf(s: Seq<char>) -> bool;

/// Relies on serde_json::from_str: parsing to a serde_json::Value succeeds
/// exactly on well-formed JSON text, and depends on the text alone.
#[verifier::external_body]
pub fn json_is_valid(s: &str) -> (b: bool)
    ensures
        b == json_wf(s@),
{
    serde_json::from_str::<serde_json::Value>(s).is_ok()
}

} // verus!
