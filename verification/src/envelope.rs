//! SOAP 1.1 envelope construction in the shape the SEI expects: every scalar
//! parameter is `<Name xsi:type="xsd:string">value</Name>` and an array
//! parameter holds one `<item>` per element.

use vstd::prelude::*;

verus! {

/// Value of one envelope parameter: a scalar or an array of strings.
#[derive(Debug)]
pub enum Param {
    Scalar(String),
    Array(Vec<String>),
}

impl From<String> for Param {
    fn from(s: String) -> (p: Param) {
        Param::Scalar(s)
    }
}

impl vstd::std_specs::convert::FromSpecImpl<String> for Param {
    open spec fn obeys_from_spec() -> bool {
        true
    }

    open spec fn from_spec(s: String) -> Param {
        Param::Scalar(s)
    }
}

/// What one character becomes inside escaped XML text.
pub open spec fn escape_char(c: char) -> Seq<char> {
    if c == '&' {
        seq!['&', 'a', 'm', 'p', ';']
    } else if c == '<' {
        seq!['&', 'l', 't', ';']
    } else if c == '>' {
        seq!['&', 'g', 't', ';']
    } else if c == '"' {
        seq!['&', 'q', 'u', 'o', 't', ';']
    } else if c == '\'' {
        seq!['&', 'a', 'p', 'o', 's', ';']
    } else {
        seq![c]
    }
}

/// The five reserved XML characters replaced by their entities, one
/// character at a time.
pub open spec fn xml_escaped(s: Seq<char>) -> Seq<char>
    decreases s.len(),
{
    if s.len() == 0 {
        Seq::empty()
    } else {
        xml_escaped(s.drop_last()) + escape_char(s.last())
    }
}

/// The characters that XML text must not hold as they are.
pub open spec fn is_reserved(c: char) -> bool {
    c == '&' || c == '<' || c == '>' || c == '"' || c == '\''
}

fn escape_str(c: char) -> (r: &'static str)
    ensures
        is_reserved(c) ==> r@ == escape_char(c),
        !is_reserved(c) ==> r@.len() == 0,
{
    if c == '&' {
        proof { reveal_strlit("&amp;"); }
        "&amp;"
    } else if c == '<' {
        proof { reveal_strlit("&lt;"); }
        "&lt;"
    } else if c == '>' {
        proof { reveal_strlit("&gt;"); }
        "&gt;"
    } else if c == '"' {
        proof { reveal_strlit("&quot;"); }
        "&quot;"
    } else if c == '\'' {
        proof { reveal_strlit("&apos;"); }
        "&apos;"
    } else {
        proof { reveal_strlit(""); }
        ""
    }
}

/// Escaped text holds no markup: none of `<`, `>`, `"` and `'` is left.
pub proof fn law_escaped_has_no_markup(s: Seq<char>)
    ensures
        forall|i: int|
            0 <= i < xml_escaped(s).len() ==> #[trigger] xml_escaped(s)[i] != '<' && xml_escaped(s)[i]
                != '>' && xml_escaped(s)[i] != '"' && xml_escaped(s)[i] != '\'',
    decreases s.len(),
{
    if s.len() > 0 {
        law_escaped_has_no_markup(s.drop_last());
        let p = xml_escaped(s.drop_last());
        let e = escape_char(s.last());
        assert forall|i: int| 0 <= i < xml_escaped(s).len() implies #[trigger] xml_escaped(s)[i] != '<'
            && xml_escaped(s)[i] != '>' && xml_escaped(s)[i] != '"' && xml_escaped(s)[i] != '\'' by {
            if i < p.len() {
                assert(xml_escaped(s)[i] == p[i]);
            } else {
                assert(xml_escaped(s)[i] == e[i - p.len()]);
            }
        }
    }
}

/// Escapes the five reserved characters of XML.
pub fn xml_escape(s: &str) -> (r: String)
    ensures
        r@ == xml_escaped(s@),
{
    let cs = crate::text::str_chars(s);
    let mut r = String::new();
    let mut i: usize = 0;
    while i < cs.len()
        invariant
            i <= cs.len(),
            cs@ == s@,
            r@ == xml_escaped(s@.subrange(0, i as int)),
        decreases cs.len() - i,
    {
        let c = cs[i];
        assert(s@.subrange(0, i + 1).drop_last() == s@.subrange(0, i as int));
        let e = escape_str(c);
        if !e.is_empty() {
            r.append(e);
        } else {
            crate::text::string_push(&mut r, c);
        }
        i = i + 1;
    }
    assert(s@.subrange(0, s@.len() as int) == s@);
    r
}

/// The markup of one parameter.
pub open spec fn rendered_param(name: Seq<char>, value: Param) -> Seq<char> {
    match value {
        Param::Scalar(v) => "<"@ + name + " xsi:type=\"xsd:string\">"@ + xml_escaped(v@) + "</"@
            + name + ">"@,
        Param::Array(items) => "<"@ + name + ">"@ + rendered_items(items@) + "</"@ + name + ">"@,
    }
}

/// The `<item>` elements of an array parameter, in order.
pub open spec fn rendered_items(items: Seq<String>) -> Seq<char>
    decreases items.len(),
{
    if items.len() == 0 {
        Seq::empty()
    } else {
        rendered_items(items.drop_last()) + "<item xsi:type=\"xsd:string\">"@ + xml_escaped(
            items.last()@,
        ) + "</item>"@
    }
}

/// The markup of all parameters, in order.
pub open spec fn rendered_params(params: Seq<(&str, Param)>) -> Seq<char>
    decreases params.len(),
{
    if params.len() == 0 {
        Seq::empty()
    } else {
        rendered_params(params.drop_last()) + rendered_param(params.last().0@, params.last().1)
    }
}

/// Appends the markup of one parameter.
pub fn render_param(out: &mut String, name: &str, value: &Param)
    ensures
        final(out)@ == old(out)@ + rendered_param(name@, *value),
{
    match value {
        Param::Scalar(v) => {
            out.append("<");
            out.append(name);
            out.append(" xsi:type=\"xsd:string\">");
            let e = xml_escape(v.as_str());
            out.append(e.as_str());
            out.append("</");
            out.append(name);
            out.append(">");
        },
        Param::Array(items) => {
            out.append("<");
            out.append(name);
            out.append(">");
            let ghost start = out@;
            let mut i: usize = 0;
            while i < items.len()
                invariant
                    i <= items.len(),
                    out@ == start + rendered_items(items@.subrange(0, i as int)),
                decreases items.len() - i,
            {
                assert(items@.subrange(0, i + 1).drop_last() == items@.subrange(0, i as int));
                out.append("<item xsi:type=\"xsd:string\">");
                let e = xml_escape(items[i].as_str());
                out.append(e.as_str());
                out.append("</item>");
                i = i + 1;
            }
            assert(items@.subrange(0, items@.len() as int) == items@);
            out.append("</");
            out.append(name);
            out.append(">");
        },
    }
}

/// The whole envelope for `operation` with the given parameters.
pub open spec fn envelope_text(
    operation: Seq<char>,
    params: Seq<(&str, Param)>,
    ns_prefix: Seq<char>,
    ns_uri: Seq<char>,
) -> Seq<char> {
    "<?xml version=\"1.0\" encoding=\"utf-8\"?>\n<soapenv:Envelope xmlns:xsi=\"http://www.w3.org/2001/XMLSchema-instance\" xmlns:xsd=\"http://www.w3.org/2001/XMLSchema\" xmlns:soapenv=\"http://schemas.xmlsoap.org/soap/envelope/\" xmlns:"@
        + ns_prefix + "=\""@ + ns_uri + "\">\n  <soapenv:Header/>\n  <soapenv:Body>\n    <"@
        + ns_prefix + ":"@ + operation
        + " soapenv:encodingStyle=\"http://schemas.xmlsoap.org/soap/encoding/\">"@
        + rendered_params(params) + "</"@ + ns_prefix + ":"@ + operation
        + ">\n  </soapenv:Body>\n</soapenv:Envelope>"@
}

/// Builds the SOAP 1.1 envelope for `operation` with the given `params`.
pub fn build_envelope(operation: &str, params: &[(&str, Param)], ns_prefix: &str, ns_uri: &str) -> (r:
    String)
    ensures
        r@ == envelope_text(operation@, params@, ns_prefix@, ns_uri@),
{
    let mut body = String::new();
    let mut i: usize = 0;
    while i < params.len()
        invariant
            i <= params.len(),
            body@ == rendered_params(params@.subrange(0, i as int)),
        decreases params.len() - i,
    {
        assert(params@.subrange(0, i + 1).drop_last() == params@.subrange(0, i as int));
        let (name, value) = &params[i];
        render_param(&mut body, name, value);
        i = i + 1;
    }
    assert(params@.subrange(0, params@.len() as int) == params@);
    let mut r = String::new();
    r.append("<?xml version=\"1.0\" encoding=\"utf-8\"?>\n<soapenv:Envelope xmlns:xsi=\"http://www.w3.org/2001/XMLSchema-instance\" xmlns:xsd=\"http://www.w3.org/2001/XMLSchema\" xmlns:soapenv=\"http://schemas.xmlsoap.org/soap/envelope/\" xmlns:");
    r.append(ns_prefix);
    r.append("=\"");
    r.append(ns_uri);
    r.append("\">\n  <soapenv:Header/>\n  <soapenv:Body>\n    <");
    r.append(ns_prefix);
    r.append(":");
    r.append(operation);
    r.append(" soapenv:encodingStyle=\"http://schemas.xmlsoap.org/soap/encoding/\">");
    r.append(body.as_str());
    r.append("</");
    r.append(ns_prefix);
    r.append(":");
    r.append(operation);
    r.append(">\n  </soapenv:Body>\n</soapenv:Envelope>");
    r
}


/// The reserved character whose entity starts `t`, if one does.
pub open spec fn entidade_em(t: Seq<char>) -> Option<char> {
    if escape_char('&').is_prefix_of(t) {
        Some('&')
    } else if escape_char('<').is_prefix_of(t) {
        Some('<')
    } else if escape_char('>').is_prefix_of(t) {
        Some('>')
    } else if escape_char('"').is_prefix_of(t) {
        Some('"')
    } else if escape_char('\'').is_prefix_of(t) {
        Some('\'')
    } else {
        None
    }
}

/// XML text with its five entities decoded, from left to right; any other
/// character is kept as it is.
pub open spec fn unescaped(t: Seq<char>) -> Seq<char>
    decreases t.len(),
{
    if t.len() == 0 {
        Seq::empty()
    } else {
        match entidade_em(t) {
            Some(c) => seq![c] + unescaped(t.skip(escape_char(c).len() as int)),
            None => seq![t[0]] + unescaped(t.drop_first()),
        }
    }
}

proof fn lemma_escaped_concat(a: Seq<char>, b: Seq<char>)
    ensures
        xml_escaped(a + b) == xml_escaped(a) + xml_escaped(b),
    decreases b.len(),
{
    if b.len() == 0 {
        assert(a + b =~= a);
        assert(xml_escaped(a) + xml_escaped(b) =~= xml_escaped(a));
    } else {
        assert((a + b).drop_last() =~= a + b.drop_last());
        assert((a + b).last() == b.last());
        lemma_escaped_concat(a, b.drop_last());
        assert(xml_escaped(a + b) =~= xml_escaped(a) + xml_escaped(b));
    }
}

proof fn lemma_escaped_front(s: Seq<char>)
    requires
        s.len() > 0,
    ensures
        xml_escaped(s) == escape_char(s[0]) + xml_escaped(s.drop_first()),
{
    let one = seq![s[0]];
    assert(s =~= one + s.drop_first());
    lemma_escaped_concat(one, s.drop_first());
    assert(one.drop_last() =~= Seq::<char>::empty());
    assert(xml_escaped(Seq::<char>::empty()) == Seq::<char>::empty());
    assert(one.last() == s[0]);
    assert(xml_escaped(one) =~= escape_char(s[0]));
}

proof fn lemma_unescape_step(c: char, rest: Seq<char>)
    ensures
        unescaped(escape_char(c) + rest) == seq![c] + unescaped(rest),
{
    let e = escape_char(c);
    let t = e + rest;
    assert(t.skip(e.len() as int) =~= rest);
    assert(t[0] == e[0]);
    if is_reserved(c) {
        assert(e.is_prefix_of(t)) by {
            assert(e =~= t.subrange(0, e.len() as int));
        }
        assert(t[1] == e[1]);
        if e.len() > 2 {
            assert(t[2] == e[2]);
        }
        assert(entidade_em(t) == Some(c));
    } else {
        assert(e.len() == 1);
        assert(t.drop_first() =~= rest);
        assert(t[0] == c);
        assert(entidade_em(t) is None);
    }
}

proof fn lemma_amp_starts_entity(s: Seq<char>)
    ensures
        forall|i: int|
            0 <= i < xml_escaped(s).len() && #[trigger] xml_escaped(s)[i] == '&' ==> entidade_em(
                xml_escaped(s).skip(i),
            ) is Some,
    decreases s.len(),
{
    if s.len() > 0 {
        let c = s[0];
        let rest = s.drop_first();
        lemma_amp_starts_entity(rest);
        lemma_escaped_front(s);
        let e = escape_char(c);
        let out = xml_escaped(s);
        let r = xml_escaped(rest);
        assert forall|i: int| 0 <= i < out.len() && #[trigger] out[i] == '&' implies entidade_em(
            out.skip(i),
        ) is Some by {
            if i < e.len() {
                assert(out[i] == e[i]);
                assert(i == 0);
                assert(out.skip(0) =~= out);
                assert(e =~= out.subrange(0, e.len() as int));
                assert(e.is_prefix_of(out));
            } else {
                assert(out[i] == r[i - e.len()]);
                assert(out.skip(i) =~= r.skip(i - e.len()));
            }
        }
    }
}

proof fn lemma_plain_unchanged(s: Seq<char>)
    requires
        forall|i: int| 0 <= i < s.len() ==> !is_reserved(#[trigger] s[i]),
    ensures
        xml_escaped(s) == s,
    decreases s.len(),
{
    if s.len() > 0 {
        let pre = s.drop_last();
        assert forall|i: int| 0 <= i < pre.len() implies !is_reserved(#[trigger] pre[i]) by {
            assert(pre[i] == s[i]);
        }
        lemma_plain_unchanged(pre);
        assert(!is_reserved(s.last()));
        assert(xml_escaped(s) =~= s);
    }
}

proof fn lemma_unescape_escaped(s: Seq<char>)
    ensures
        unescaped(xml_escaped(s)) == s,
    decreases s.len(),
{
    if s.len() == 0 {
        assert(unescaped(xml_escaped(s)) =~= s);
    } else {
        let rest = s.drop_first();
        lemma_unescape_escaped(rest);
        lemma_escaped_front(s);
        lemma_unescape_step(s[0], xml_escaped(rest));
        assert(seq![s[0]] + rest =~= s);
    }
}

/// Escaping can be undone: decoding the entities of escaped text gives the
/// text back; every `&` of escaped text starts one of the five entities;
/// and text without a reserved character is left as it is.
pub proof fn law_escape_roundtrip(s: Seq<char>)
    ensures
        unescaped(xml_escaped(s)) == s,
        forall|i: int|
            0 <= i < xml_escaped(s).len() && #[trigger] xml_escaped(s)[i] == '&' ==> entidade_em(
                xml_escaped(s).skip(i),
            ) is Some,
        (forall|i: int| 0 <= i < s.len() ==> !is_reserved(#[trigger] s[i])) ==> xml_escaped(s) == s,
{
    lemma_unescape_escaped(s);
    lemma_amp_starts_entity(s);
    if forall|i: int| 0 <= i < s.len() ==> !is_reserved(#[trigger] s[i]) {
        lemma_plain_unchanged(s);
    }
}

} // verus!
