//! The rules of the answer cache: cache keys, the lifetime of each class of
//! operation, the client's `Cache-Control` directive, what an answer or a
//! failure leaves in the cache, and the headers that describe a response.
//! The store itself (an in-memory concurrent cache) lives with the server.

use vstd::prelude::*;
use crate::envelope::Param;
use crate::error::{AppError, is_infra_failure};
use crate::order::{lex_sorted, seqs_of, sort_lex};
use crate::text::{str_chars, str_eq, string_push, decimal, decimal_string, ascii_lowered,
    ascii_lowercase_chars, contains_chars, contains_exec};

verus! {

/// The parts joined by `sep`.
pub open spec fn joined(parts: Seq<Seq<char>>, sep: Seq<char>) -> Seq<char>
    decreases parts.len(),
{
    if parts.len() == 0 {
        Seq::empty()
    } else if parts.len() == 1 {
        parts[0]
    } else {
        joined(parts.drop_last(), sep) + sep + parts.last()
    }
}

/// The texts of a sequence of strings.
pub open spec fn strings_of(v: Seq<String>) -> Seq<Seq<char>> {
    Seq::new(v.len(), |i: int| v[i]@)
}

/// How one parameter is written in a cache key.
pub open spec fn param_part(name: Seq<char>, value: Param) -> Seq<char> {
    match value {
        Param::Scalar(s) => name + "=S:"@ + s@,
        Param::Array(a) => name + "=A:"@ + joined(strings_of(a@), ","@),
    }
}

/// How each parameter is written in a cache key, in the given order.
pub open spec fn param_parts(params: Seq<(&str, Param)>) -> Seq<Seq<char>> {
    Seq::new(params.len(), |i: int| param_part(params[i].0@, params[i].1))
}

/// The parameters of a cache key: their parts sorted, joined by U+001F.
pub open spec fn encoded_params(params: Seq<(&str, Param)>) -> Seq<char> {
    joined(lex_sorted(param_parts(params)), seq!['\u{1f}'])
}

/// The cache key of an SEI operation.
pub open spec fn sei_key(operation: Seq<char>, include_unidade: bool, params: Seq<(&str, Param)>) -> Seq<
    char,
> {
    "sei:"@ + operation + ":"@ + (if include_unidade {
        "true"@
    } else {
        "false"@
    }) + ":"@ + encoded_params(params)
}

/// The cache key of an SIP operation.
pub open spec fn sip_key(operation: Seq<char>, params: Seq<(&str, Param)>) -> Seq<char> {
    "sip:"@ + operation + ":"@ + encoded_params(params)
}

/// Appends `parts` joined by `sep` to `out`.
fn push_joined(out: &mut String, parts: &Vec<Vec<char>>, sep: &str)
    ensures
        final(out)@ == old(out)@ + joined(seqs_of(parts@), sep@),
{
    let ghost start = out@;
    let mut i: usize = 0;
    while i < parts.len()
        invariant
            i <= parts@.len(),
            out@ == start + joined(seqs_of(parts@).subrange(0, i as int), sep@),
        decreases parts@.len() - i,
    {
        assert(seqs_of(parts@).subrange(0, i + 1).drop_last() =~= seqs_of(parts@).subrange(
            0,
            i as int,
        ));
        if i > 0 {
            out.append(sep);
        }
        let part = &parts[i];
        let mut k: usize = 0;
        let ghost mid = out@;
        while k < part.len()
            invariant
                k <= part@.len(),
                out@ == mid + part@.subrange(0, k as int),
            decreases part@.len() - k,
        {
            string_push(out, part[k]);
            k = k + 1;
        }
        assert(part@.subrange(0, part@.len() as int) =~= part@);
        i = i + 1;
        assert(seqs_of(parts@).subrange(0, i as int).last() == part@);
    }
    assert(seqs_of(parts@).subrange(0, parts@.len() as int) =~= seqs_of(parts@));
}

/// The characters of the strings of `v`.
fn chars_of_strings(v: &Vec<String>) -> (r: Vec<Vec<char>>)
    ensures
        seqs_of(r@) == strings_of(v@),
{
    let mut r: Vec<Vec<char>> = Vec::new();
    let mut i: usize = 0;
    while i < v.len()
        invariant
            i <= v@.len(),
            seqs_of(r@) == strings_of(v@).subrange(0, i as int),
        decreases v@.len() - i,
    {
        let ghost before = r@;
        let c = str_chars(v[i].as_str());
        r.push(c);
        assert(seqs_of(r@) =~= seqs_of(before).push(v@[i as int]@));
        i = i + 1;
        assert(strings_of(v@).subrange(0, i as int) =~= strings_of(v@).subrange(0, i - 1).push(
            v@[i - 1]@,
        ));
    }
    assert(strings_of(v@).subrange(0, v@.len() as int) =~= strings_of(v@));
    r
}

/// How one parameter is written in a cache key.
fn render_part(name: &str, value: &Param) -> (r: Vec<char>)
    ensures
        r@ == param_part(name@, *value),
{
    let mut s = String::from_str(name);
    match value {
        Param::Scalar(v) => {
            s.append("=S:");
            s.append(v.as_str());
        },
        Param::Array(a) => {
            s.append("=A:");
            let parts = chars_of_strings(a);
            push_joined(&mut s, &parts, ",");
        },
    }
    str_chars(s.as_str())
}

/// Writes the parameters deterministically: each as `name=S:value` or
/// `name=A:a,b,...`, sorted, joined by U+001F.
pub fn encode_params(extra: &[(&str, Param)]) -> (r: String)
    ensures
        r@ == encoded_params(extra@),
{
    let mut parts: Vec<Vec<char>> = Vec::new();
    let mut i: usize = 0;
    while i < extra.len()
        invariant
            i <= extra@.len(),
            seqs_of(parts@) == param_parts(extra@).subrange(0, i as int),
        decreases extra@.len() - i,
    {
        let (k, v) = &extra[i];
        let ghost before = parts@;
        let part = render_part(k, v);
        parts.push(part);
        assert(seqs_of(parts@) =~= seqs_of(before).push(param_part(extra@[i as int].0@, extra@[i as int].1)));
        i = i + 1;
        assert(param_parts(extra@).subrange(0, i as int) =~= param_parts(extra@).subrange(0, i - 1).push(
            param_part(extra@[i - 1].0@, extra@[i - 1].1),
        ));
    }
    assert(param_parts(extra@).subrange(0, extra@.len() as int) =~= param_parts(extra@));
    let sorted = sort_lex(parts);
    let mut r = String::new();
    push_joined(&mut r, &sorted, "\u{1f}");
    proof {
        reveal_strlit("\u{1f}");
        assert("\u{1f}"@ =~= seq!['\u{1f}']);
        assert(r@ =~= joined(seqs_of(sorted@), seq!['\u{1f}']));
    }
    r
}

/// The cache key of an SEI operation. It holds only parameters that are not
/// secret (the service's credentials are added later and never enter it).
pub fn key_sei(operation: &str, include_unidade: bool, extra: &[(&str, Param)]) -> (r: String)
    ensures
        r@ == sei_key(operation@, include_unidade, extra@),
{
    let mut r = String::from_str("sei:");
    r.append(operation);
    r.append(":");
    if include_unidade {
        r.append("true");
    } else {
        r.append("false");
    }
    r.append(":");
    let e = encode_params(extra);
    r.append(e.as_str());
    r
}

/// The cache key of an SIP operation.
pub fn key_sip(operation: &str, extra: &[(&str, Param)]) -> (r: String)
    ensures
        r@ == sip_key(operation@, extra@),
{
    let mut r = String::from_str("sip:");
    r.append(operation);
    r.append(":");
    let e = encode_params(extra);
    r.append(e.as_str());
    r
}

} // verus!

verus! {

broadcast use vstd::seq_lib::group_to_multiset_ensures, vstd::multiset::group_multiset_axioms;

/// Mapping two sequences with the same elements gives sequences with the
/// same elements.
proof fn lemma_map_same_elements<A, B>(s1: Seq<A>, s2: Seq<A>, f: spec_fn(A) -> B)
    requires
        s1.to_multiset() == s2.to_multiset(),
    ensures
        s1.map_values(f).to_multiset() == s2.map_values(f).to_multiset(),
    decreases s1.len(),
{
    if s1.len() == 0 {
        assert(s1.to_multiset().len() == 0);
        assert(s2.to_multiset().len() == s2.len());
        assert(s2.len() == 0);
        assert(s1.map_values(f) =~= s2.map_values(f));
    } else {
        let x = s1.last();
        let t1 = s1.drop_last();
        assert(s1 =~= t1.push(x));
        assert(s2.to_multiset().count(x) > 0);
        assert(s2.contains(x));
        let i = choose|i: int| 0 <= i < s2.len() && s2[i] == x;
        let t2 = s2.remove(i);
        assert(t2.to_multiset() =~= s2.to_multiset().remove(x));
        assert(t1.to_multiset() =~= s1.to_multiset().remove(x));
        lemma_map_same_elements(t1, t2, f);
        assert(s1.map_values(f) =~= t1.map_values(f).push(f(x)));
        let m2 = s2.map_values(f);
        assert(m2.remove(i) =~= t2.map_values(f));
        assert(m2.remove(i).to_multiset() =~= m2.to_multiset().remove(f(x)));
        assert(m2.to_multiset().count(f(x)) > 0) by {
            assert(m2[i] == f(x));
            assert(m2.contains(f(x)));
        }
        assert(m2.to_multiset() =~= m2.to_multiset().remove(f(x)).insert(f(x)));
    }
}

/// The cache key does not depend on the order in which the parameters are
/// given: two parameter lists with the same elements give the same SEI key
/// and the same SIP key.
pub proof fn law_key_ignores_param_order(
    operation: Seq<char>,
    include_unidade: bool,
    p1: Seq<(&str, Param)>,
    p2: Seq<(&str, Param)>,
)
    requires
        p1.to_multiset() == p2.to_multiset(),
    ensures
        sei_key(operation, include_unidade, p1) == sei_key(operation, include_unidade, p2),
        sip_key(operation, p1) == sip_key(operation, p2),
{
    let f = |x: (&str, Param)| param_part(x.0@, x.1);
    assert(param_parts(p1) =~= p1.map_values(f));
    assert(param_parts(p2) =~= p2.map_values(f));
    lemma_map_same_elements(p1, p2, f);
    let q1 = param_parts(p1);
    let q2 = param_parts(p2);
    crate::order::lemma_lex_total_ordering();
    q1.lemma_sort_by_ensures(crate::order::lex_leq());
    q2.lemma_sort_by_ensures(crate::order::lex_leq());
    vstd::seq_lib::lemma_sorted_unique(lex_sorted(q1), lex_sorted(q2), crate::order::lex_leq());
}

/// Whether the unit of the configuration is sent is part of the key: the
/// same operation with the same parameters has two different keys.
pub proof fn law_key_distinguishes_unidade(operation: Seq<char>, params: Seq<(&str, Param)>)
    ensures
        sei_key(operation, true, params) != sei_key(operation, false, params),
{
    reveal_strlit("sei:");
    reveal_strlit(":");
    reveal_strlit("true");
    reveal_strlit("false");
    let k: int = operation.len() as int + 5;
    assert(sei_key(operation, true, params)[k] == 't');
    assert(sei_key(operation, false, params)[k] == 'f');
}

/// SEI keys and SIP keys never collide.
pub proof fn law_sei_and_sip_keys_differ(
    op1: Seq<char>,
    include_unidade: bool,
    p1: Seq<(&str, Param)>,
    op2: Seq<char>,
    p2: Seq<(&str, Param)>,
)
    ensures
        sei_key(op1, include_unidade, p1) != sip_key(op2, p2),
{
    reveal_strlit("sei:");
    reveal_strlit("sip:");
    assert(sei_key(op1, include_unidade, p1)[1] == 'e');
    assert(sip_key(op2, p2)[1] == 'i');
}

} // verus!

verus! {

/// Settings of the answer cache (durations in milliseconds).
#[derive(Debug, Clone, Copy)]
pub struct CacheConfig {
    pub enabled: bool,
    /// Memory ceiling, weighed by the size of the cached JSON.
    pub max_bytes: u64,
    pub ttl_estatico_ms: u64,
    pub ttl_semi_ms: u64,
    pub ttl_dinamico_ms: u64,
    /// How long the last good answer is kept for serve-stale (0 turns it off).
    pub stale_ttl_ms: u64,
    /// How long a SOAP Fault is remembered (0 turns negative caching off).
    pub neg_ttl_ms: u64,
}

/// Operations whose answers rarely change.
pub open spec fn estaticos() -> Seq<Seq<char>> {
    seq![
        "listarPaises"@,
        "listarEstados"@,
        "listarCidades"@,
        "listarSeries"@,
        "listarTiposProcedimento"@,
        "listarTiposProcedimentoOuvidoria"@,
        "listarTiposConferencia"@,
        "listarCargos"@,
        "listarHipotesesLegais"@,
        "listarExtensoesPermitidas"@,
        "listarUnidades"@,
        "listarMarcadoresUnidade"@,
        "listarFeriados"@,
    ]
}

/// Operations whose answers change now and then.
pub open spec fn semi() -> Seq<Seq<char>> {
    seq!["listarUsuarios"@, "listarContatos"@, "listarPermissao"@]
}

/// The lifetime of the answers of an operation, by its class.
pub open spec fn ttl_of(cfg: CacheConfig, operation: Seq<char>) -> u64 {
    if estaticos().contains(operation) {
        cfg.ttl_estatico_ms
    } else if semi().contains(operation) {
        cfg.ttl_semi_ms
    } else {
        cfg.ttl_dinamico_ms
    }
}

fn listed(list: &Vec<&str>, s: &str) -> (r: bool)
    ensures
        r == list@.map_values(|x: &str| x@).contains(s@),
{
    let ghost l = list@.map_values(|x: &str| x@);
    let mut i: usize = 0;
    while i < list.len()
        invariant
            i <= list@.len(),
            l == list@.map_values(|x: &str| x@),
            forall|k: int| 0 <= k < i ==> l[k] != s@,
        decreases list@.len() - i,
    {
        if str_eq(list[i], s) {
            assert(l[i as int] == s@);
            return true;
        }
        i = i + 1;
    }
    false
}

impl CacheConfig {
    /// The lifetime of the answers of `operation` by its class (static,
    /// semi-static or dynamic).
    pub fn ttl_for(&self, operation: &str) -> (r: u64)
        ensures
            r == ttl_of(*self, operation@),
    {
        let est: Vec<&str> = vec![
            "listarPaises",
            "listarEstados",
            "listarCidades",
            "listarSeries",
            "listarTiposProcedimento",
            "listarTiposProcedimentoOuvidoria",
            "listarTiposConferencia",
            "listarCargos",
            "listarHipotesesLegais",
            "listarExtensoesPermitidas",
            "listarUnidades",
            "listarMarcadoresUnidade",
            "listarFeriados",
        ];
        let sem: Vec<&str> = vec!["listarUsuarios", "listarContatos", "listarPermissao"];
        assert(est@.map_values(|x: &str| x@) =~= estaticos());
        assert(sem@.map_values(|x: &str| x@) =~= semi());
        if listed(&est, operation) {
            self.ttl_estatico_ms
        } else if listed(&sem, operation) {
            self.ttl_semi_ms
        } else {
            self.ttl_dinamico_ms
        }
    }
}

/// The client's cache directive, from its `Cache-Control` header.
#[derive(Debug, Clone, Copy, PartialEq, Eq, Structural)]
pub enum Bypass {
    /// Use the cache.
    Off,
    /// `no-cache`: fetch fresh and refresh the cache.
    NoCache,
    /// `no-store`: fetch fresh and keep nothing.
    NoStore,
}

/// The directive of the current request: the one its context holds, or
/// `Off` outside any request (the context is what the request's task-local
/// slot gave back).
pub fn ctx_bypass(ctx: Option<Bypass>) -> (r: Bypass)
    ensures
        r == match ctx {
            Some(b) => b,
            None => Bypass::Off,
        },
{
    match ctx {
        Some(b) => b,
        None => Bypass::Off,
    }
}

/// The directive of the current request, to be carried into a spawned task
/// (see [`ctx_bypass`]).
pub fn bypass_atual(ctx: Option<Bypass>) -> (r: Bypass)
    ensures
        r == match ctx {
            Some(b) => b,
            None => Bypass::Off,
        },
{
    ctx_bypass(ctx)
}

/// How a cacheable call is served.
#[derive(Debug, Clone, Copy, PartialEq, Eq, Structural)]
pub enum Modo {
    /// The cache is off: call the SEI and keep nothing.
    Direto,
    /// The client asked for fresh data: call the SEI (an error is answered
    /// as it is) and, when `guardar`, refresh the cache with the answer.
    Fresco { guardar: bool },
    /// Answer from the cache, calling the SEI on a miss.
    Cache,
}

/// How a call is served, from whether the cache is on and the client's
/// directive: `no-cache` refreshes the cache, `no-store` leaves it alone.
pub open spec fn modo_of(enabled: bool, bypass: Bypass) -> Modo {
    if !enabled {
        Modo::Direto
    } else if bypass != Bypass::Off {
        Modo::Fresco { guardar: bypass == Bypass::NoCache }
    } else {
        Modo::Cache
    }
}

/// Decides how a cacheable call is served.
pub fn modo_consulta(enabled: bool, bypass: Bypass) -> (r: Modo)
    ensures
        r == modo_of(enabled, bypass),
{
    if !enabled {
        Modo::Direto
    } else if bypass != Bypass::Off {
        Modo::Fresco { guardar: bypass == Bypass::NoCache }
    } else {
        Modo::Cache
    }
}

/// The directive a `Cache-Control` header asks for (`no-store` wins over `no-cache`).
pub open spec fn bypass_of(header: Option<Seq<char>>) -> Bypass {
    match header {
        None => Bypass::Off,
        Some(h) => if contains_chars(ascii_lowered(h), "no-store"@) {
            Bypass::NoStore
        } else if contains_chars(ascii_lowered(h), "no-cache"@) {
            Bypass::NoCache
        } else {
            Bypass::Off
        },
    }
}

/// Reads the cache directive of a request from its `Cache-Control` header
/// (compared case-insensitively).
pub fn bypass_from_header(header: Option<&str>) -> (r: Bypass)
    ensures
        r == bypass_of(match header {
            Some(h) => Some(h@),
            None => None,
        }),
{
    match header {
        None => Bypass::Off,
        Some(h) => {
            let hc = str_chars(h);
            let low = ascii_lowercase_chars(hc.as_slice());
            let ns = str_chars("no-store");
            let nc = str_chars("no-cache");
            if contains_exec(low.as_slice(), ns.as_slice()) {
                Bypass::NoStore
            } else if contains_exec(low.as_slice(), nc.as_slice()) {
                Bypass::NoCache
            } else {
                Bypass::Off
            }
        },
    }
}

/// How a cacheable call was served.
#[derive(Debug, Clone, Copy, PartialEq, Eq, Structural)]
pub enum Hit {
    /// From the cache, fresh.
    Fresh,
    /// From the SEI.
    Miss,
    /// An older value, because the SEI failed.
    Stale,
}

/// What the cacheable calls of one request went through: how many were
/// served each way, the smallest TTL among them (`u64::MAX` while there is
/// none) and the age of the oldest value served.
#[derive(Debug, Clone, Copy)]
pub struct ReqStats {
    pub hits: u64,
    pub misses: u64,
    pub stales: u64,
    pub min_ttl: u64,
    pub max_age: u64,
}

impl ReqStats {
    /// The statistics of a request before any call.
    pub fn new() -> (r: ReqStats)
        ensures
            r.hits == 0 && r.misses == 0 && r.stales == 0,
            r.min_ttl == u64::MAX,
            r.max_age == 0,
    {
        ReqStats { hits: 0, misses: 0, stales: 0, min_ttl: u64::MAX, max_age: 0 }
    }

    /// Records one call: its counter goes up by one (wrapping, as an atomic
    /// counter does), the smallest TTL and the largest age are kept.
    pub fn anotar(&mut self, hit: Hit, ttl_secs: u64, age_secs: u64)
        ensures
            final(self).hits == if hit == Hit::Fresh {
                vstd::wrapping::u64_specs::wrapping_add(old(self).hits, 1)
            } else {
                old(self).hits
            },
            final(self).misses == if hit == Hit::Miss {
                vstd::wrapping::u64_specs::wrapping_add(old(self).misses, 1)
            } else {
                old(self).misses
            },
            final(self).stales == if hit == Hit::Stale {
                vstd::wrapping::u64_specs::wrapping_add(old(self).stales, 1)
            } else {
                old(self).stales
            },
            final(self).min_ttl == if ttl_secs < old(self).min_ttl {
                ttl_secs
            } else {
                old(self).min_ttl
            },
            final(self).max_age == if age_secs > old(self).max_age {
                age_secs
            } else {
                old(self).max_age
            },
    {
        match hit {
            Hit::Fresh => {
                self.hits = self.hits.wrapping_add(1);
            },
            Hit::Miss => {
                self.misses = self.misses.wrapping_add(1);
            },
            Hit::Stale => {
                self.stales = self.stales.wrapping_add(1);
            },
        }
        if ttl_secs < self.min_ttl {
            self.min_ttl = ttl_secs;
        }
        if age_secs > self.max_age {
            self.max_age = age_secs;
        }
    }
}

/// The `X-Cache` label of a response from how its cached operations went:
/// nothing when none was cacheable, `HIT`, `MISS` or `STALE` when all went
/// the same way, `PARTIAL` otherwise.
pub open spec fn label_of(hits: nat, misses: nat, stales: nat) -> Option<Seq<char>> {
    let total = hits + misses + stales;
    if total == 0 {
        None
    } else if hits == total {
        Some("HIT"@)
    } else if misses == total {
        Some("MISS"@)
    } else if stales == total {
        Some("STALE"@)
    } else {
        Some("PARTIAL"@)
    }
}

/// The `X-Cache` label of a response.
pub fn cache_label(hits: u64, misses: u64, stales: u64) -> (r: Option<&'static str>)
    requires
        hits + misses + stales <= u64::MAX,
    ensures
        r matches Some(l) ==> label_of(hits as nat, misses as nat, stales as nat) == Some(l@),
        r is None ==> label_of(hits as nat, misses as nat, stales as nat) is None,
{
    let total = hits + misses + stales;
    if total == 0 {
        None
    } else if hits == total {
        Some("HIT")
    } else if misses == total {
        Some("MISS")
    } else if stales == total {
        Some("STALE")
    } else {
        Some("PARTIAL")
    }
}

/// The `Cache-Control` (and `Age`) a response gets, when it touched a
/// cacheable operation (`min_ttl_secs` is `u64::MAX` when it touched none).
pub open spec fn cache_headers_of(
    min_ttl_secs: u64,
    bypass: Bypass,
    success: bool,
    stales: u64,
    max_age_secs: u64,
) -> Option<(Seq<char>, Option<Seq<char>>)> {
    if min_ttl_secs == u64::MAX {
        None
    } else if bypass == Bypass::NoStore || !success {
        Some(("no-store"@, None))
    } else if stales > 0 {
        Some(("private, no-cache"@, None))
    } else {
        Some(("private, max-age="@ + decimal(min_ttl_secs as nat), Some(decimal(max_age_secs as nat))))
    }
}

/// The `Cache-Control` header (and `Age`) of a response: `no-store` when the
/// client asked so or the answer failed, `private, no-cache` when a stale
/// value was served, otherwise `private, max-age=<ttl>` with the age of the
/// oldest cached value.
pub fn cache_headers(
    min_ttl_secs: u64,
    bypass: Bypass,
    success: bool,
    stales: u64,
    max_age_secs: u64,
) -> (r: Option<(String, Option<String>)>)
    ensures
        match r {
            None => cache_headers_of(min_ttl_secs, bypass, success, stales, max_age_secs) is None,
            Some((cc, age)) => cache_headers_of(min_ttl_secs, bypass, success, stales, max_age_secs)
                == Some((cc@, match age {
                Some(a) => Some(a@),
                None => None,
            })),
        },
{
    if min_ttl_secs == u64::MAX {
        None
    } else if bypass == Bypass::NoStore || !success {
        Some((String::from_str("no-store"), None))
    } else if stales > 0 {
        Some((String::from_str("private, no-cache"), None))
    } else {
        let mut cc = String::from_str("private, max-age=");
        let t = decimal_string(min_ttl_secs);
        cc.append(t.as_str());
        Some((cc, Some(decimal_string(max_age_secs))))
    }
}

} // verus!

verus! {

/// What a cache entry holds: a good answer, or a remembered SOAP Fault.
#[derive(Debug, Clone)]
pub enum Payload<T> {
    Good(T),
    Fault { code: String, string: String },
}

/// The weight of a cache entry from its size in bytes, capped at `u32::MAX`.
pub fn peso(bytes: usize) -> (r: u32)
    ensures
        r as int == if bytes <= u32::MAX {
            bytes as int
        } else {
            u32::MAX as int
        },
{
    if bytes <= u32::MAX as usize {
        bytes as u32
    } else {
        u32::MAX
    }
}

/// How long an entry lives: a good answer its operation's TTL, a
/// remembered fault the negative TTL.
pub fn vida_entrada<T>(p: &Payload<T>, ttl_ms: u64, neg_ttl_ms: u64) -> (r: u64)
    ensures
        r == match *p {
            Payload::Good(_) => ttl_ms,
            Payload::Fault { .. } => neg_ttl_ms,
        },
{
    match p {
        Payload::Good(_) => ttl_ms,
        Payload::Fault { .. } => neg_ttl_ms,
    }
}

/// What fetching a missing entry leaves behind: the payload to store, or the
/// error to answer without storing anything.
pub open spec fn entry_of_fetch<T>(res: Result<T, AppError>, neg_ttl_ms: u64) -> Result<
    Payload<T>,
    AppError,
> {
    match res {
        Ok(v) => Ok(Payload::Good(v)),
        Err(AppError::SoapFault { code, string }) => if neg_ttl_ms != 0 {
            Ok(Payload::Fault { code, string })
        } else {
            Err(AppError::SoapFault { code, string })
        },
        Err(e) => Err(e),
    }
}

/// Decides what a fetch of the SEI leaves in the cache: a good answer is
/// stored; a SOAP Fault is remembered when negative caching is on; any other
/// error (an infrastructure failure) is never stored.
pub fn entry_from_fetch<T>(res: Result<T, AppError>, neg_ttl_ms: u64) -> (r: Result<Payload<T>, AppError>)
    ensures
        r == entry_of_fetch(res, neg_ttl_ms),
        r is Err ==> res is Err,
        res matches Err(e) ==> (is_infra_failure(e) ==> r == Err::<Payload<T>, AppError>(e)),
{
    match res {
        Ok(v) => Ok(Payload::Good(v)),
        Err(AppError::SoapFault { code, string }) => if neg_ttl_ms != 0 {
            Ok(Payload::Fault { code, string })
        } else {
            Err(AppError::SoapFault { code, string })
        },
        Err(e) => Err(e),
    }
}

/// What a cached entry answers: its value, or the remembered fault.
pub fn answer_of_entry<T>(p: Payload<T>) -> (r: Result<T, AppError>)
    ensures
        match p {
            Payload::Good(v) => r == Ok::<T, AppError>(v),
            Payload::Fault { code, string } => r == Err::<T, AppError>(
                AppError::SoapFault { code, string },
            ),
        },
{
    match p {
        Payload::Good(v) => Ok(v),
        Payload::Fault { code, string } => Err(AppError::SoapFault { code, string }),
    }
}

/// Whether an entry is kept for serve-stale: only good answers are.
pub fn kept_for_stale<T>(p: &Payload<T>) -> (r: bool)
    ensures
        r == (*p is Good),
{
    match p {
        Payload::Good(_) => true,
        Payload::Fault { .. } => false,
    }
}

/// The answer after a failed fetch: the last good value when the failure is
/// of the SEI's infrastructure and one is kept; the error otherwise. A SOAP
/// Fault is never masked by an older value.
pub fn after_failure<T>(err: AppError, stale: Option<Payload<T>>) -> (r: Result<T, AppError>)
    ensures
        (is_infra_failure(err) && stale matches Some(Payload::Good(v))) ==> r == Ok::<T, AppError>(
            stale->0->Good_0,
        ),
        !(is_infra_failure(err) && stale matches Some(Payload::Good(_))) ==> r == Err::<T, AppError>(
            err,
        ),
{
    if err.permite_stale() {
        match stale {
            Some(Payload::Good(v)) => Ok(v),
            _ => Err(err),
        }
    } else {
        Err(err)
    }
}

} // verus!
