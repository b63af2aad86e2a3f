//! Reading the SEI's SOAP answers: the document is parsed by `roxmltree`
//! into a flat list of nodes in document order, and everything the gateway
//! reads from it (the SOAP Fault, the `<parametros>` or `<return*>` node and
//! its conversion to JSON) is computed here. Names are compared by their
//! local part, so namespaces are ignored.

use vstd::prelude::*;
use crate::error::AppError;
use crate::json::{Json, JsonV, views, member_views, lemma_arr_view, lemma_obj_view, key_index, member};
use crate::text::{
    str_eq, str_chars, trimmed, trim_str, contains_chars, contains_exec, starts_with_chars,
    occurs_at_exec,
};

verus! {

/// One node of a parsed document. Nodes are listed in document order, so a
/// node's position is its index in the list.
#[derive(Debug)]
pub struct XmlNode {
    /// Whether the node is an element.
    pub element: bool,
    /// The local name of an element; empty for other nodes.
    pub name: String,
    /// The attributes of an element: local name and value.
    pub attrs: Vec<(String, String)>,
    /// The node's text: for an element, the text of its first child when that
    /// child is a text node.
    pub text: Option<String>,
    /// The position of the parent node.
    pub parent: Option<usize>,
}

/// What `roxmltree::Document::parse` makes of a text: its nodes in document
/// order, or the parser's error message.
pub uninterp spec fn xml_document(text: Seq<char>) -> Result<Seq<XmlNode>, Seq<char>>;

/// Parses `text` with `roxmltree::Document::parse` and lists the nodes of the
/// document (`Document::descendants`, which walks the nodes in document
/// order) with their kind, local name, attributes, text and parent position
/// (`NodeId::get_usize`). Claimed: the result is `xml_document` of the text.
#[verifier::external_body]
fn parse_document(text: &str) -> (r: Result<Vec<XmlNode>, String>)
    ensures
        match r {
            Ok(v) => xml_document(text@) == Ok::<Seq<XmlNode>, Seq<char>>(v@),
            Err(e) => xml_document(text@) == Err::<Seq<XmlNode>, Seq<char>>(e@),
        },
{
    let doc = match roxmltree::Document::parse(text) {
        Ok(d) => d,
        Err(e) => return Err(e.to_string()),
    };
    let mut nodes = Vec::new();
    for n in doc.descendants() {
        nodes.push(XmlNode {
            element: n.is_element(),
            name: n.tag_name().name().to_string(),
            attrs: n.attributes().map(|a| (a.name().to_string(), a.value().to_string())).collect(),
            text: n.text().map(|t| t.to_string()),
            parent: n.parent().map(|p| p.id().get_usize()),
        });
    }
    Ok(nodes)
}

/// The text of a node, or nothing.
pub open spec fn text_or_empty(n: XmlNode) -> Seq<char> {
    match n.text {
        Some(t) => t@,
        None => Seq::empty(),
    }
}

/// The first element at or after position `k` whose local name is `name`.
pub open spec fn first_named_from(nodes: Seq<XmlNode>, name: Seq<char>, k: int) -> Option<int>
    decreases nodes.len() - k,
{
    if k < 0 || k >= nodes.len() {
        None
    } else if nodes[k].element && nodes[k].name@ == name {
        Some(k)
    } else {
        first_named_from(nodes, name, k + 1)
    }
}

/// The first element at or after position `k` whose local name begins with `prefix`.
pub open spec fn first_prefixed_from(nodes: Seq<XmlNode>, prefix: Seq<char>, k: int) -> Option<
    int,
>
    decreases nodes.len() - k,
{
    if k < 0 || k >= nodes.len() {
        None
    } else if nodes[k].element && starts_with_chars(nodes[k].name@, prefix) {
        Some(k)
    } else {
        first_prefixed_from(nodes, prefix, k + 1)
    }
}

/// Whether position `j` lies in the subtree of position `f` (following the
/// parent links, which always point backwards).
pub open spec fn in_subtree(nodes: Seq<XmlNode>, f: int, j: int) -> bool
    decreases j,
{
    if j == f {
        true
    } else if j < f || j >= nodes.len() {
        false
    } else {
        match nodes[j].parent {
            Some(p) => (p as int) < j && in_subtree(nodes, f, p as int),
            None => false,
        }
    }
}

/// The first node at or after position `k` in the subtree of `f` whose local
/// name is `name`.
pub open spec fn first_in_subtree_from(
    nodes: Seq<XmlNode>,
    f: int,
    name: Seq<char>,
    k: int,
) -> Option<int>
    decreases nodes.len() - k,
{
    if k < 0 || k >= nodes.len() {
        None
    } else if in_subtree(nodes, f, k) && nodes[k].name@ == name {
        Some(k)
    } else {
        first_in_subtree_from(nodes, f, name, k + 1)
    }
}

/// The text of the first node named `name` in the subtree of `f`, or nothing.
pub open spec fn text_in_subtree(nodes: Seq<XmlNode>, f: int, name: Seq<char>) -> Seq<char> {
    match first_in_subtree_from(nodes, f, name, f) {
        Some(j) => text_or_empty(nodes[j]),
        None => Seq::empty(),
    }
}

/// The `faultcode` and `faultstring` of the first `Fault` element of a SOAP
/// answer, if the answer parses and has one.
pub open spec fn fault_of(text: Seq<char>) -> Option<(Seq<char>, Seq<char>)> {
    match xml_document(text) {
        Err(_) => None,
        Ok(nodes) => match first_named_from(nodes, "Fault"@, 0) {
            None => None,
            Some(f) => Some(
                (text_in_subtree(nodes, f, "faultcode"@), text_in_subtree(nodes, f, "faultstring"@)),
            ),
        },
    }
}

/// Whether an element is `xsi:nil` (the XML Schema boolean: "true" or "1").
pub open spec fn is_nil(n: XmlNode) -> bool {
    exists|k: int|
        0 <= k < n.attrs@.len() && (#[trigger] n.attrs@[k]).0@ == "nil"@ && (n.attrs@[k].1@
            == "true"@ || n.attrs@[k].1@ == "1"@)
}

/// Whether an element is typed as an array (`arrayType`, or `type` naming an `ArrayOf*`).
pub open spec fn has_array_type(n: XmlNode) -> bool {
    exists|k: int|
        0 <= k < n.attrs@.len() && ((#[trigger] n.attrs@[k]).0@ == "arrayType"@ || (
        n.attrs@[k].0@ == "type"@ && contains_chars(n.attrs@[k].1@, "ArrayOf"@)))
}

/// Whether position `j` is an element child of position `i`.
pub open spec fn is_child(nodes: Seq<XmlNode>, i: int, j: int) -> bool {
    i < j < nodes.len() && nodes[j].element && nodes[j].parent == Some(i as usize)
}

/// The element children of `i` among the positions below `k`, in order.
pub open spec fn children_below(nodes: Seq<XmlNode>, i: int, k: int) -> Seq<usize>
    decreases k,
{
    if k <= 0 {
        Seq::empty()
    } else if is_child(nodes, i, k - 1) {
        children_below(nodes, i, k - 1).push((k - 1) as usize)
    } else {
        children_below(nodes, i, k - 1)
    }
}

/// The element children of `i`, in document order.
pub open spec fn child_elements(nodes: Seq<XmlNode>, i: int) -> Seq<usize> {
    children_below(nodes, i, nodes.len() as int)
}

/// Whether every node at the given positions is named `item`.
pub open spec fn all_items(nodes: Seq<XmlNode>, ch: Seq<usize>) -> bool {
    forall|k: int| 0 <= k < ch.len() ==> nodes[#[trigger] ch[k] as int].name@ == "item"@
}

/// Whether an element becomes a JSON array: it is typed as one, or all of
/// its (at least one) element children are `item`s.
pub open spec fn is_array(nodes: Seq<XmlNode>, i: int, ch: Seq<usize>) -> bool {
    has_array_type(nodes[i]) || (ch.len() > 0 && all_items(nodes, ch))
}

/// Adds member `k` with value `v` to an object: a new key is appended; a
/// repeated key turns into an array (or grows the array already there).
pub open spec fn obj_merge(m: Seq<(Seq<char>, JsonV)>, k: Seq<char>, v: JsonV) -> Seq<
    (Seq<char>, JsonV),
> {
    match key_index(m, k) {
        None => m.push((k, v)),
        Some(i) => m.update(
            i,
            (
                k,
                match m[i].1 {
                    JsonV::Arr(a) => JsonV::Arr(a.push(v)),
                    prev => JsonV::Arr(seq![prev, v]),
                },
            ),
        ),
    }
}

/// The JSON value of the node at position `i`:
/// `xsi:nil` is `null`; an array-typed node or one whose children are all
/// `item`s is the array of its `item` children; a node without element
/// children is its trimmed text; any other node is the object of its
/// children by local name.
pub open spec fn node_json(nodes: Seq<XmlNode>, i: int) -> JsonV
    decreases nodes.len() - i + 1, 0int,
{
    if !(0 <= i < nodes.len()) {
        JsonV::Null
    } else if is_nil(nodes[i]) {
        JsonV::Null
    } else {
        let ch = child_elements(nodes, i);
        if is_array(nodes, i, ch) {
            JsonV::Arr(array_json(nodes, i, ch))
        } else if ch.len() == 0 {
            JsonV::Str(trimmed(text_or_empty(nodes[i])))
        } else {
            JsonV::Obj(members_json(nodes, i, ch))
        }
    }
}

/// The values of the `item`s among the given children of `i`.
pub open spec fn array_json(nodes: Seq<XmlNode>, i: int, ch: Seq<usize>) -> Seq<JsonV>
    decreases nodes.len() - i, ch.len(),
{
    if !(0 <= i < nodes.len()) || ch.len() == 0 {
        Seq::empty()
    } else {
        let j = ch.last() as int;
        let rest = array_json(nodes, i, ch.drop_last());
        if i < j < nodes.len() && nodes[j].name@ == "item"@ {
            rest.push(node_json(nodes, j))
        } else {
            rest
        }
    }
}

/// The object built from the given children of `i`.
pub open spec fn members_json(nodes: Seq<XmlNode>, i: int, ch: Seq<usize>) -> Seq<
    (Seq<char>, JsonV),
>
    decreases nodes.len() - i, ch.len(),
{
    if !(0 <= i < nodes.len()) || ch.len() == 0 {
        Seq::empty()
    } else {
        let j = ch.last() as int;
        let rest = members_json(nodes, i, ch.drop_last());
        if i < j < nodes.len() {
            obj_merge(rest, nodes[j].name@, node_json(nodes, j))
        } else {
            rest
        }
    }
}

/// The JSON of the first element named `name` in a SOAP answer, or the error
/// message when the answer does not parse or has no such element.
pub open spec fn named_json(text: Seq<char>, name: Seq<char>, missing: Seq<char>) -> Result<
    JsonV,
    Seq<char>,
> {
    match xml_document(text) {
        Err(m) => Err(m),
        Ok(nodes) => match first_named_from(nodes, name, 0) {
            Some(p) => Ok(node_json(nodes, p)),
            None => Err(missing),
        },
    }
}

/// The JSON of the first element whose name begins with `prefix`, or the
/// error message.
pub open spec fn prefixed_json(text: Seq<char>, prefix: Seq<char>, missing: Seq<char>) -> Result<
    JsonV,
    Seq<char>,
> {
    match xml_document(text) {
        Err(m) => Err(m),
        Ok(nodes) => match first_prefixed_from(nodes, prefix, 0) {
            Some(p) => Ok(node_json(nodes, p)),
            None => Err(missing),
        },
    }
}

/// Whether a conversion result agrees with its model (errors are `Parse`).
pub open spec fn json_result_matches(r: Result<Json, AppError>, m: Result<JsonV, Seq<char>>) -> bool {
    match (r, m) {
        (Ok(j), Ok(v)) => j@ == v,
        (Err(AppError::Parse(e)), Err(s)) => e@ == s,
        _ => false,
    }
}

/// The first element named `name`.
fn first_named(nodes: &Vec<XmlNode>, name: &str) -> (r: Option<usize>)
    ensures
        r matches Some(k) ==> first_named_from(nodes@, name@, 0) == Some(k as int) && k
            < nodes@.len(),
        r is None ==> first_named_from(nodes@, name@, 0) is None,
{
    let mut k: usize = 0;
    while k < nodes.len()
        invariant
            k <= nodes.len(),
            first_named_from(nodes@, name@, 0) == first_named_from(nodes@, name@, k as int),
        decreases nodes.len() - k,
    {
        if nodes[k].element && str_eq(nodes[k].name.as_str(), name) {
            return Some(k);
        }
        k = k + 1;
    }
    None
}

/// The first element whose name begins with `prefix`.
fn first_prefixed(nodes: &Vec<XmlNode>, prefix: &str) -> (r: Option<usize>)
    ensures
        r matches Some(k) ==> first_prefixed_from(nodes@, prefix@, 0) == Some(k as int) && k
            < nodes@.len(),
        r is None ==> first_prefixed_from(nodes@, prefix@, 0) is None,
{
    let p = str_chars(prefix);
    let mut k: usize = 0;
    while k < nodes.len()
        invariant
            k <= nodes.len(),
            p@ == prefix@,
            first_prefixed_from(nodes@, prefix@, 0) == first_prefixed_from(
                nodes@,
                prefix@,
                k as int,
            ),
        decreases nodes.len() - k,
    {
        if nodes[k].element {
            let n = str_chars(nodes[k].name.as_str());
            if occurs_at_exec(n.as_slice(), p.as_slice(), 0) {
                return Some(k);
            }
        }
        k = k + 1;
    }
    None
}

/// The first node named `name` in the subtree of `f`.
fn first_in_subtree(nodes: &Vec<XmlNode>, f: usize, name: &str) -> (r: Option<usize>)
    requires
        f < nodes.len(),
    ensures
        r matches Some(k) ==> first_in_subtree_from(nodes@, f as int, name@, f as int) == Some(
            k as int,
        ) && k < nodes@.len(),
        r is None ==> first_in_subtree_from(nodes@, f as int, name@, f as int) is None,
{
    // marks[q - f] tells whether position q lies in the subtree of f
    let mut marks: Vec<bool> = Vec::new();
    let mut k: usize = f;
    while k < nodes.len()
        invariant
            f <= k <= nodes.len(),
            marks@.len() == k - f,
            forall|q: int| f <= q < k ==> marks@[q - f] == in_subtree(nodes@, f as int, q),
            first_in_subtree_from(nodes@, f as int, name@, f as int) == first_in_subtree_from(
                nodes@,
                f as int,
                name@,
                k as int,
            ),
        decreases nodes.len() - k,
    {
        let inside = if k == f {
            true
        } else {
            match nodes[k].parent {
                Some(p) => f <= p && p < k && marks[p - f],
                None => false,
            }
        };
        proof {
            if k != f {
                match nodes@[k as int].parent {
                    Some(p) => {
                        if (p as int) < f {
                            lemma_subtree_before(nodes@, f as int, p as int);
                        } else if p < k {
                            assert(marks@[p - f] == in_subtree(nodes@, f as int, p as int));
                        }
                        assert(in_subtree(nodes@, f as int, k as int) == ((p as int) < k
                            && in_subtree(nodes@, f as int, p as int)));
                    },
                    None => {},
                }
            }
        }
        assert(inside == in_subtree(nodes@, f as int, k as int));
        if inside && str_eq(nodes[k].name.as_str(), name) {
            return Some(k);
        }
        marks.push(inside);
        k = k + 1;
    }
    None
}

proof fn lemma_subtree_before(nodes: Seq<XmlNode>, f: int, j: int)
    requires
        j < f,
    ensures
        !in_subtree(nodes, f, j),
{
}

/// The text of the first node named `name` in the subtree of `f`, or nothing.
fn text_in(nodes: &Vec<XmlNode>, f: usize, name: &str) -> (r: String)
    requires
        f < nodes.len(),
    ensures
        r@ == text_in_subtree(nodes@, f as int, name@),
{
    match first_in_subtree(nodes, f, name) {
        Some(j) => match &nodes[j].text {
            Some(t) => t.clone(),
            None => String::new(),
        },
        None => String::new(),
    }
}

/// The `faultcode` and `faultstring` of a SOAP Fault, or `None` when the
/// answer carries none (or does not parse).
pub fn extract_fault(body: &str) -> (r: Option<(String, String)>)
    ensures
        r matches Some(f) ==> fault_of(body@) == Some((f.0@, f.1@)),
        r is None ==> fault_of(body@) is None,
{
    let nodes = match parse_document(body) {
        Ok(n) => n,
        Err(_) => return None,
    };
    match first_named(&nodes, "Fault") {
        None => None,
        Some(f) => {
            let code = text_in(&nodes, f, "faultcode");
            let string = text_in(&nodes, f, "faultstring");
            Some((code, string))
        },
    }
}

/// Whether an element is `xsi:nil`.
fn is_nil_exec(n: &XmlNode) -> (r: bool)
    ensures
        r == is_nil(*n),
{
    let mut k: usize = 0;
    while k < n.attrs.len()
        invariant
            k <= n.attrs@.len(),
            forall|q: int|
                0 <= q < k ==> !((#[trigger] n.attrs@[q]).0@ == "nil"@ && (n.attrs@[q].1@
                    == "true"@ || n.attrs@[q].1@ == "1"@)),
        decreases n.attrs.len() - k,
    {
        let (a, v) = &n.attrs[k];
        if str_eq(a.as_str(), "nil") && (str_eq(v.as_str(), "true") || str_eq(v.as_str(), "1")) {
            return true;
        }
        k = k + 1;
    }
    false
}

/// Whether an element is typed as an array.
fn has_array_type_exec(n: &XmlNode) -> (r: bool)
    ensures
        r == has_array_type(*n),
{
    let pat = str_chars("ArrayOf");
    let mut k: usize = 0;
    while k < n.attrs.len()
        invariant
            k <= n.attrs@.len(),
            pat@ == "ArrayOf"@,
            forall|q: int|
                0 <= q < k ==> !((#[trigger] n.attrs@[q]).0@ == "arrayType"@ || (n.attrs@[q].0@
                    == "type"@ && contains_chars(n.attrs@[q].1@, "ArrayOf"@))),
        decreases n.attrs.len() - k,
    {
        let (a, v) = &n.attrs[k];
        if str_eq(a.as_str(), "arrayType") {
            return true;
        }
        if str_eq(a.as_str(), "type") {
            let vc = str_chars(v.as_str());
            if contains_exec(vc.as_slice(), pat.as_slice()) {
                return true;
            }
        }
        k = k + 1;
    }
    false
}

/// The element children of `i`, in document order.
fn children(nodes: &Vec<XmlNode>, i: usize) -> (r: Vec<usize>)
    ensures
        r@ == child_elements(nodes@, i as int),
{
    let mut r: Vec<usize> = Vec::new();
    let mut k: usize = 0;
    while k < nodes.len()
        invariant
            k <= nodes.len(),
            r@ == children_below(nodes@, i as int, k as int),
        decreases nodes.len() - k,
    {
        if i < k && nodes[k].element && nodes[k].parent == Some(i) {
            r.push(k);
        }
        k = k + 1;
    }
    r
}

proof fn lemma_children_below(nodes: Seq<XmlNode>, i: int, k: int)
    requires
        k <= nodes.len() <= usize::MAX,
    ensures
        forall|q: int|
            0 <= q < children_below(nodes, i, k).len() ==> is_child(
                nodes,
                i,
                #[trigger] children_below(nodes, i, k)[q] as int,
            ),
    decreases k,
{
    if k > 0 {
        lemma_children_below(nodes, i, k - 1);
        let prev = children_below(nodes, i, k - 1);
        if is_child(nodes, i, k - 1) {
            assert forall|q: int|
                0 <= q < children_below(nodes, i, k).len() implies is_child(
                nodes,
                i,
                #[trigger] children_below(nodes, i, k)[q] as int,
            ) by {
                if q < prev.len() {
                    assert(children_below(nodes, i, k)[q] == prev[q]);
                } else {
                    assert(children_below(nodes, i, k)[q] == (k - 1) as usize);
                }
            }
        }
    }
}

/// Whether every node at the given positions is named `item`.
fn all_items_exec(nodes: &Vec<XmlNode>, ch: &Vec<usize>) -> (r: bool)
    requires
        forall|k: int| 0 <= k < ch@.len() ==> (#[trigger] ch@[k]) < nodes@.len(),
    ensures
        r == all_items(nodes@, ch@),
{
    let mut k: usize = 0;
    while k < ch.len()
        invariant
            k <= ch@.len(),
            forall|q: int| 0 <= q < ch@.len() ==> (#[trigger] ch@[q]) < nodes@.len(),
            forall|q: int| 0 <= q < k ==> nodes@[#[trigger] ch@[q] as int].name@ == "item"@,
        decreases ch.len() - k,
    {
        if !str_eq(nodes[ch[k]].name.as_str(), "item") {
            return false;
        }
        k = k + 1;
    }
    true
}

/// Adds a member to an object as [`obj_merge`] says.
fn merge_member(m: &mut Vec<(String, Json)>, k: String, v: Json)
    ensures
        member_views(final(m)@) == obj_merge(member_views(old(m)@), k@, v@),
{
    let ghost mv = member_views(m@);
    let mut idx: usize = 0;
    while idx < m.len() && !str_eq(m[idx].0.as_str(), k.as_str())
        invariant
            idx <= m@.len(),
            mv == member_views(m@),
            *m == *old(m),
            forall|q: int| 0 <= q < idx ==> mv[q].0 != k@,
        decreases m.len() - idx,
    {
        idx = idx + 1;
    }
    if idx == m.len() {
        proof {
            crate::json::lemma_key_index(mv, k@);
        }
        m.push((k, v));
        assert(member_views(m@) =~= mv.push((k@, v@)));
    } else {
        proof {
            crate::json::lemma_key_index_first(mv, k@, idx as int);
        }
        let (key, prev) = m.remove(idx);
        let merged = match prev {
            Json::Arr(mut a) => {
                let ghost a0 = a@;
                proof {
                    lemma_arr_view(a);
                }
                a.push(v);
                proof {
                    lemma_arr_view(a);
                    assert(views(a@) =~= views(a0).push(v@));
                }
                Json::Arr(a)
            },
            other => {
                let pair: Vec<Json> = vec![other, v];
                proof {
                    lemma_arr_view(pair);
                    assert(views(pair@) =~= seq![mv[idx as int].1, v@]);
                }
                Json::Arr(pair)
            },
        };
        m.insert(idx, (key, merged));
        assert(member_views(m@) =~= obj_merge(mv, k@, v@));
    }
}

/// Converts the node at position `i` to JSON as [`node_json`] says.
pub fn node_to_json(nodes: &Vec<XmlNode>, i: usize) -> (r: Json)
    requires
        i < nodes@.len(),
    ensures
        r@ == node_json(nodes@, i as int),
    decreases nodes@.len() - i,
{
    if is_nil_exec(&nodes[i]) {
        return Json::Null;
    }
    let ch = children(nodes, i);
    let total = nodes.len();
    proof {
        lemma_children_below(nodes@, i as int, total as int);
    }
    if has_array_type_exec(&nodes[i]) || (ch.len() > 0 && all_items_exec(nodes, &ch)) {
        let mut out: Vec<Json> = Vec::new();
        let mut k: usize = 0;
        while k < ch.len()
            invariant
                i < nodes@.len(),
                k <= ch@.len(),
                ch@ == child_elements(nodes@, i as int),
                forall|q: int| 0 <= q < ch@.len() ==> is_child(nodes@, i as int, #[trigger] ch@[q] as int),
                views(out@) == array_json(nodes@, i as int, ch@.subrange(0, k as int)),
            decreases ch@.len() - k,
        {
            let j = ch[k];
            assert(ch@.subrange(0, k + 1).drop_last() == ch@.subrange(0, k as int));
            assert(is_child(nodes@, i as int, j as int));
            if str_eq(nodes[j].name.as_str(), "item") {
                let v = node_to_json(nodes, j);
                out.push(v);
                assert(views(out@) =~= array_json(nodes@, i as int, ch@.subrange(0, k as int)).push(
                    v@,
                ));
            }
            k = k + 1;
        }
        proof {
            assert(ch@.subrange(0, ch@.len() as int) == ch@);
            lemma_arr_view(out);
        }
        Json::Arr(out)
    } else if ch.len() == 0 {
        match &nodes[i].text {
            Some(t) => Json::Str(trim_str(t.as_str())),
            None => Json::Str(String::new()),
        }
    } else {
        let mut m: Vec<(String, Json)> = Vec::new();
        let mut k: usize = 0;
        while k < ch.len()
            invariant
                i < nodes@.len(),
                k <= ch@.len(),
                ch@ == child_elements(nodes@, i as int),
                forall|q: int| 0 <= q < ch@.len() ==> is_child(nodes@, i as int, #[trigger] ch@[q] as int),
                member_views(m@) == members_json(nodes@, i as int, ch@.subrange(0, k as int)),
            decreases ch@.len() - k,
        {
            let j = ch[k];
            assert(ch@.subrange(0, k + 1).drop_last() == ch@.subrange(0, k as int));
            assert(is_child(nodes@, i as int, j as int));
            let v = node_to_json(nodes, j);
            merge_member(&mut m, nodes[j].name.clone(), v);
            k = k + 1;
        }
        proof {
            assert(ch@.subrange(0, ch@.len() as int) == ch@);
            lemma_obj_view(m);
        }
        Json::Obj(m)
    }
}

/// The message given when an answer lacks its `<parametros>` node.
pub open spec fn parametros_missing() -> Seq<char> {
    "nó <parametros> não encontrado na resposta"@
}

/// The message given when an SIP answer lacks its `<return*>` node.
pub open spec fn return_missing() -> Seq<char> {
    "nó de retorno do SIP não encontrado"@
}

/// The JSON of the first element named `name` among parsed nodes, if any.
pub open spec fn named_nodes_json(nodes: Seq<XmlNode>, name: Seq<char>) -> Option<JsonV> {
    match first_named_from(nodes, name, 0) {
        Some(p) => Some(node_json(nodes, p)),
        None => None,
    }
}

/// The JSON of the first element whose name begins with `prefix`, if any.
pub open spec fn prefixed_nodes_json(nodes: Seq<XmlNode>, prefix: Seq<char>) -> Option<JsonV> {
    match first_prefixed_from(nodes, prefix, 0) {
        Some(p) => Some(node_json(nodes, p)),
        None => None,
    }
}

/// Converts the first element named `name` of a parsed document to JSON.
pub fn json_of_named(nodes: &Vec<XmlNode>, name: &str) -> (r: Option<Json>)
    ensures
        match named_nodes_json(nodes@, name@) {
            Some(v) => r matches Some(j) && j@ == v,
            None => r is None,
        },
{
    match first_named(nodes, name) {
        Some(p) => Some(node_to_json(nodes, p)),
        None => None,
    }
}

/// Converts the first element whose name begins with `prefix` to JSON.
pub fn json_of_prefixed(nodes: &Vec<XmlNode>, prefix: &str) -> (r: Option<Json>)
    ensures
        match prefixed_nodes_json(nodes@, prefix@) {
            Some(v) => r matches Some(j) && j@ == v,
            None => r is None,
        },
{
    match first_prefixed(nodes, prefix) {
        Some(p) => Some(node_to_json(nodes, p)),
        None => None,
    }
}

/// Finds the `<parametros>` node of an SEI answer and converts it to JSON.
pub fn parametros_to_json(body: &str) -> (r: Result<Json, AppError>)
    ensures
        json_result_matches(r, named_json(body@, "parametros"@, parametros_missing())),
{
    let nodes = match parse_document(body) {
        Ok(n) => n,
        Err(e) => return Err(AppError::Parse(e)),
    };
    match json_of_named(&nodes, "parametros") {
        Some(j) => Ok(j),
        None => Err(AppError::Parse(String::from_str("nó <parametros> não encontrado na resposta"))),
    }
}

/// Finds the return node of an SIP answer (`<return*>`, such as
/// `returnPermissoes`; the SIP has no `<parametros>`) and converts it to JSON.
pub fn return_to_json(body: &str) -> (r: Result<Json, AppError>)
    ensures
        json_result_matches(r, prefixed_json(body@, "return"@, return_missing())),
{
    let nodes = match parse_document(body) {
        Ok(n) => n,
        Err(e) => return Err(AppError::Parse(e)),
    };
    match json_of_prefixed(&nodes, "return") {
        Some(j) => Ok(j),
        None => Err(AppError::Parse(String::from_str("nó de retorno do SIP não encontrado"))),
    }
}


/// The values of the children at `ch` whose local name is `k`, in order.
pub open spec fn valores_com_nome(nodes: Seq<XmlNode>, ch: Seq<usize>, k: Seq<char>) -> Seq<JsonV>
    decreases ch.len(),
{
    if ch.len() == 0 {
        Seq::empty()
    } else {
        let rest = valores_com_nome(nodes, ch.drop_last(), k);
        let j = ch.last() as int;
        if nodes[j].name@ == k {
            rest.push(node_json(nodes, j))
        } else {
            rest
        }
    }
}

/// The member that the values of one name become: the value itself when it
/// is alone; otherwise the array of all of them in order, joined to the
/// first one when that one is already an array.
pub open spec fn valores_juntos(vals: Seq<JsonV>) -> JsonV {
    if vals.len() == 1 {
        vals[0]
    } else {
        match vals[0] {
            JsonV::Arr(a) => JsonV::Arr(a + vals.drop_first()),
            _ => JsonV::Arr(vals),
        }
    }
}

proof fn lemma_obj_merge_key(m: Seq<(Seq<char>, JsonV)>, k2: Seq<char>, v: JsonV, k: Seq<char>)
    ensures
        k != k2 ==> key_index(obj_merge(m, k2, v), k) == key_index(m, k) && (key_index(m, k) matches Some(
            p,
        ) ==> obj_merge(m, k2, v)[p] == m[p]),
        k == k2 ==> (key_index(obj_merge(m, k2, v), k) matches Some(p) && obj_merge(m, k2, v)[p].1
            == match key_index(m, k) {
            None => v,
            Some(q) => match m[q].1 {
                JsonV::Arr(a) => JsonV::Arr(a.push(v)),
                prev => JsonV::Arr(seq![prev, v]),
            },
        }),
        k == k2 ==> (key_index(m, k) matches Some(q) ==> key_index(obj_merge(m, k2, v), k) == Some(q)),
{
    let r = obj_merge(m, k2, v);
    crate::json::lemma_key_index(m, k);
    crate::json::lemma_key_index(m, k2);
    match key_index(m, k2) {
        None => {
            assert(r == m.push((k2, v)));
            if k != k2 {
                match key_index(m, k) {
                    Some(p) => {
                        crate::json::lemma_key_index_first(r, k, p);
                    },
                    None => {
                        crate::json::lemma_key_index(r, k);
                        if key_index(r, k) is Some {
                            let p = key_index(r, k)->0;
                            assert(r[p] == m[p] || p == m.len());
                        }
                    },
                }
            } else {
                crate::json::lemma_key_index_first(r, k, m.len() as int);
            }
        },
        Some(i2) => {
            if k != k2 {
                match key_index(m, k) {
                    Some(p) => {
                        assert(p != i2);
                        crate::json::lemma_key_index_first(r, k, p);
                    },
                    None => {
                        crate::json::lemma_key_index(r, k);
                        if key_index(r, k) is Some {
                            let p = key_index(r, k)->0;
                            assert(r[p].0 == m[p].0);
                        }
                    },
                }
            } else {
                crate::json::lemma_key_index_first(r, k, i2);
            }
        },
    }
}

proof fn lemma_members_by_name(nodes: Seq<XmlNode>, i: int, ch: Seq<usize>, k: Seq<char>)
    requires
        0 <= i < nodes.len(),
        forall|q: int| 0 <= q < ch.len() ==> i < #[trigger] ch[q] < nodes.len(),
    ensures
        valores_com_nome(nodes, ch, k).len() == 0 ==> key_index(members_json(nodes, i, ch), k) is None,
        valores_com_nome(nodes, ch, k).len() > 0 ==> (key_index(members_json(nodes, i, ch), k) matches Some(
            p,
        ) && members_json(nodes, i, ch)[p].1 == valores_juntos(valores_com_nome(nodes, ch, k))),
    decreases ch.len(),
{
    if ch.len() > 0 {
        let pre = ch.drop_last();
        assert forall|q: int| 0 <= q < pre.len() implies i < #[trigger] pre[q] < nodes.len() by {
            assert(pre[q] == ch[q]);
        }
        lemma_members_by_name(nodes, i, pre, k);
        let j = ch.last() as int;
        assert(i < ch[ch.len() - 1] < nodes.len());
        let rest = members_json(nodes, i, pre);
        let v = node_json(nodes, j);
        lemma_obj_merge_key(rest, nodes[j].name@, v, k);
        let vals = valores_com_nome(nodes, pre, k);
        let r = members_json(nodes, i, ch);
        assert(r == obj_merge(rest, nodes[j].name@, v));
        if nodes[j].name@ != k {
            assert(valores_com_nome(nodes, ch, k) == vals);
        } else if vals.len() == 0 {
            assert(valores_com_nome(nodes, ch, k) =~= seq![v]);
        } else {
            let nv = vals.push(v);
            assert(valores_com_nome(nodes, ch, k) == nv);
            let p = key_index(rest, k)->0;
            assert(nv[0] == vals[0]);
            if vals.len() >= 2 {
                match vals[0] {
                    JsonV::Arr(a) => {
                        assert(a + nv.drop_first() =~= (a + vals.drop_first()).push(v));
                    },
                    _ => {},
                }
            } else {
                assert(nv.drop_first() =~= seq![v]);
                assert(nv =~= seq![vals[0], v]);
                match vals[0] {
                    JsonV::Arr(a) => {
                        assert(a + nv.drop_first() =~= a.push(v));
                    },
                    _ => {},
                }
            }
            assert(r[key_index(r, k)->0].1 == valores_juntos(nv));
        }
    }
}

/// How an element that is neither `nil` nor an array becomes an object:
/// the member of a local name is the value of its child with that name when
/// there is one, the array of the values of all of them, in document order,
/// when there are several (joined to the first when that one is already an
/// array), and missing when no child has that name.
pub proof fn law_object_members(nodes: Seq<XmlNode>, i: int, k: Seq<char>)
    requires
        0 <= i < nodes.len() <= usize::MAX,
        !is_nil(nodes[i]),
        !is_array(nodes, i, child_elements(nodes, i)),
        child_elements(nodes, i).len() > 0,
    ensures
        member(node_json(nodes, i), k) == if valores_com_nome(nodes, child_elements(nodes, i), k).len() == 0 {
            None
        } else {
            Some(valores_juntos(valores_com_nome(nodes, child_elements(nodes, i), k)))
        },
{
    let ch = child_elements(nodes, i);
    lemma_children_below(nodes, i, nodes.len() as int);
    assert forall|q: int| 0 <= q < ch.len() implies i < #[trigger] ch[q] < nodes.len() by {
        assert(is_child(nodes, i, ch[q] as int));
    }
    lemma_members_by_name(nodes, i, ch, k);
}

} // verus!
