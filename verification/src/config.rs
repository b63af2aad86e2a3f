//! Configuration of the service, resolved from the process environment
//! (given here as the list of its variables), with the defaults of the
//! Pernambuco SEI.

use vstd::prelude::*;
use crate::text::{
    comma_items, comma_items_of, texts, str_eq, starts_with_chars, occurs_at_exec, str_chars,
    parse_unsigned, parse_unsigned_exec, decimal, decimal_string, string_push, trimmed, law_comma_items_clean,
};
use vstd::utf8::encode_utf8;

verus! {

/// Names what `str::to_uppercase` returns (Unicode uppercase mapping).
pub uninterp spec fn uppercase(s: Seq<char>) -> Seq<char>;

/// `str::to_uppercase`: claimed to return `uppercase` of its argument.
#[verifier::external_body]
fn to_uppercase(s: &str) -> (r: String)
    ensures
        r@ == uppercase(s@),
{
    s.to_uppercase()
}

/// Access to the SEI.
pub struct SeiConfig {
    pub url: String,
    pub sigla_sistema: String,
    pub identificacao_servico: String,
    pub id_unidade: String,
    pub timeout_secs: u64,
    /// Tasks per `listarAndamentos` call when the full timeline is fetched in batches.
    pub andamentos_lote: usize,
    /// How many batches of tasks are fetched at the same time.
    pub andamentos_conc: usize,
}

/// Access to the SIP (optional; it has its own access key).
pub struct SipConfig {
    pub url: String,
    pub chave_acesso: String,
    pub id_sistema: String,
}

/// The whole configuration of the service.
pub struct AppConfig {
    /// Address the HTTP server binds to.
    pub bind: String,
    /// Valid Bearer tokens of the clients.
    pub tokens: Vec<String>,
    pub sei: SeiConfig,
    pub sip: SipConfig,
    /// Log filter, kept for reference.
    pub log_filter: String,
}

impl SipConfig {
    /// Whether the SIP can be used: its access key and system id are set.
    pub fn configurado(&self) -> (r: bool)
        ensures
            r == (self.chave_acesso@.len() > 0 && self.id_sistema@.len() > 0),
    {
        !self.chave_acesso.as_str().is_empty() && !self.id_sistema.as_str().is_empty()
    }
}

/// The value of the first variable named `key`, if any.
pub open spec fn env_value(vars: Seq<(String, String)>, key: Seq<char>) -> Option<Seq<char>>
    decreases vars.len(),
{
    if vars.len() == 0 {
        None
    } else if vars[0].0@ == key {
        Some(vars[0].1@)
    } else {
        env_value(vars.drop_first(), key)
    }
}

/// The value of variable `key` when it is set and not empty, else `fallback`.
pub open spec fn env_or(vars: Seq<(String, String)>, key: Seq<char>, fallback: Seq<char>) -> Seq<
    char,
> {
    match env_value(vars, key) {
        Some(v) => if v.len() > 0 {
            v
        } else {
            fallback
        },
        None => fallback,
    }
}

/// Reads variable `key`, or `fallback` when it is unset or empty.
fn get(vars: &Vec<(String, String)>, key: &str, fallback: &str) -> (r: String)
    ensures
        r@ == env_or(vars@, key@, fallback@),
{
    let mut i: usize = 0;
    assert(vars@.subrange(0, vars@.len() as int) =~= vars@);
    while i < vars.len()
        invariant
            i <= vars@.len(),
            env_value(vars@, key@) == env_value(vars@.subrange(i as int, vars@.len() as int), key@),
        decreases vars@.len() - i,
    {
        let ghost rest = vars@.subrange(i as int, vars@.len() as int);
        assert(rest.drop_first() =~= vars@.subrange(i + 1, vars@.len() as int));
        if str_eq(vars[i].0.as_str(), key) {
            assert(rest[0] == vars@[i as int]);
            if vars[i].1.as_str().is_empty() {
                return String::from_str(fallback);
            } else {
                return vars[i].1.clone();
            }
        }
        i = i + 1;
    }
    String::from_str(fallback)
}

/// The client tokens the environment gives.
pub open spec fn tokens_of(vars: Seq<(String, String)>) -> Seq<Seq<char>> {
    comma_items_of(env_or(vars, "EUSEI_TOKENS"@, ""@))
}

/// Whether some token is the example placeholder (`TROQUE...` in any case).
pub open spec fn has_placeholder(tokens: Seq<Seq<char>>) -> bool {
    exists|k: int| 0 <= k < tokens.len() && starts_with_chars(uppercase(#[trigger] tokens[k]), "TROQUE"@)
}

/// The text of the SEI's timeout, in seconds (default 60).
pub open spec fn timeout_text(vars: Seq<(String, String)>) -> Seq<char> {
    env_or(vars, "SEI_TIMEOUT_SECS"@, "60"@)
}

/// The text of the batch size of timeline queries (default 8).
pub open spec fn lote_text(vars: Seq<(String, String)>) -> Seq<char> {
    env_or(vars, "SEI_ANDAMENTOS_LOTE"@, "8"@)
}

/// The text of how many batches run at once (default 3).
pub open spec fn conc_text(vars: Seq<(String, String)>) -> Seq<char> {
    env_or(vars, "SEI_ANDAMENTOS_CONC"@, "3"@)
}

/// Whether a text is a positive integer that fits a `usize`.
pub open spec fn positive_usize(s: Seq<char>) -> bool {
    parse_unsigned(s, usize::MAX as nat) matches Some(n) && n > 0
}

/// Why the environment cannot configure the service, if it cannot: no
/// token, a placeholder token, no SEI access key, or a malformed number.
pub open spec fn config_error(vars: Seq<(String, String)>) -> Option<Seq<char>> {
    let tokens = tokens_of(vars);
    if tokens.len() == 0 {
        Some("EUSEI_TOKENS vazio: defina ao menos um token Bearer."@)
    } else if has_placeholder(tokens) {
        Some("EUSEI_TOKENS contém um token placeholder ('TROQUE...'): defina um token real."@)
    } else if env_or(vars, "SEI_IDENTIFICACAO_SERVICO"@, ""@).len() == 0 {
        Some("SEI_IDENTIFICACAO_SERVICO ausente (chave de acesso do SEI)."@)
    } else if parse_unsigned(timeout_text(vars), u64::MAX as nat) is None {
        Some("SEI_TIMEOUT_SECS inválido (esperado inteiro)."@)
    } else if !positive_usize(lote_text(vars)) {
        Some("SEI_ANDAMENTOS_LOTE inválido (esperado inteiro > 0)."@)
    } else if !positive_usize(conc_text(vars)) {
        Some("SEI_ANDAMENTOS_CONC inválido (esperado inteiro > 0)."@)
    } else {
        None
    }
}

/// Whether `c` is the configuration the environment gives (when it gives one).
pub open spec fn configured_from(c: AppConfig, vars: Seq<(String, String)>) -> bool {
    &&& c.bind@ == env_or(vars, "EUSEI_BIND"@, "127.0.0.1:18088"@)
    &&& texts(c.tokens@) == tokens_of(vars)
    &&& c.sei.url@ == env_or(vars, "SEI_URL"@, "https://sei.pe.gov.br/sei/ws/SeiWS.php"@)
    &&& c.sei.sigla_sistema@ == env_or(vars, "SEI_SIGLA_SISTEMA"@, "HORTENSIAS"@)
    &&& c.sei.identificacao_servico@ == env_or(vars, "SEI_IDENTIFICACAO_SERVICO"@, ""@)
    &&& c.sei.id_unidade@ == env_or(vars, "SEI_ID_UNIDADE"@, ""@)
    &&& parse_unsigned(timeout_text(vars), u64::MAX as nat) == Some(c.sei.timeout_secs as nat)
    &&& parse_unsigned(lote_text(vars), usize::MAX as nat) == Some(c.sei.andamentos_lote as nat)
    &&& parse_unsigned(conc_text(vars), usize::MAX as nat) == Some(c.sei.andamentos_conc as nat)
    &&& c.sip.url@ == env_or(
        vars,
        "SEI_SIP_URL"@,
        "https://sei.pe.gov.br/sip/controlador_ws.php?servico=sip"@,
    )
    &&& c.sip.chave_acesso@ == env_or(vars, "SEI_SIP_CHAVE_ACESSO"@, ""@)
    &&& c.sip.id_sistema@ == env_or(vars, "SEI_SIP_ID_SISTEMA"@, ""@)
    &&& c.log_filter@ == env_or(vars, "RUST_LOG"@, "eusei=info,tower_http=info"@)
}

fn any_placeholder(tokens: &Vec<String>) -> (r: bool)
    ensures
        r == has_placeholder(texts(tokens@)),
{
    let pat = str_chars("TROQUE");
    let mut i: usize = 0;
    while i < tokens.len()
        invariant
            i <= tokens@.len(),
            pat@ == "TROQUE"@,
            forall|k: int|
                0 <= k < i ==> !starts_with_chars(uppercase(#[trigger] texts(tokens@)[k]), "TROQUE"@),
        decreases tokens@.len() - i,
    {
        let up = to_uppercase(tokens[i].as_str());
        let upc = str_chars(up.as_str());
        assert(texts(tokens@)[i as int] == tokens@[i as int]@);
        if occurs_at_exec(upc.as_slice(), pat.as_slice(), 0) {
            return true;
        }
        i = i + 1;
    }
    false
}

impl AppConfig {
    /// Builds the configuration from the environment's variables (name,
    /// value). Fails early when no token is set, when a token is the example
    /// placeholder, when the SEI access key is missing, or when a number is
    /// malformed.
    pub fn from_env(vars: &Vec<(String, String)>) -> (r: Result<AppConfig, String>)
        ensures
            match r {
                Ok(c) => config_error(vars@) is None && configured_from(c, vars@),
                Err(e) => config_error(vars@) == Some(e@),
            },
    {
        let tokens_text = get(vars, "EUSEI_TOKENS", "");
        let tokens = comma_items(tokens_text.as_str());
        if tokens.len() == 0 {
            return Err(String::from_str("EUSEI_TOKENS vazio: defina ao menos um token Bearer."));
        }
        if any_placeholder(&tokens) {
            return Err(
                String::from_str(
                    "EUSEI_TOKENS contém um token placeholder ('TROQUE...'): defina um token real.",
                ),
            );
        }
        let identificacao_servico = get(vars, "SEI_IDENTIFICACAO_SERVICO", "");
        if identificacao_servico.as_str().is_empty() {
            return Err(String::from_str("SEI_IDENTIFICACAO_SERVICO ausente (chave de acesso do SEI)."));
        }
        let timeout_secs = match parse_unsigned_exec(get(vars, "SEI_TIMEOUT_SECS", "60").as_str(), u64::MAX) {
            Some(v) => v,
            None => return Err(String::from_str("SEI_TIMEOUT_SECS inválido (esperado inteiro).")),
        };
        let andamentos_lote = match parse_unsigned_exec(
            get(vars, "SEI_ANDAMENTOS_LOTE", "8").as_str(),
            usize::MAX as u64,
        ) {
            Some(v) if v > 0 => v as usize,
            _ => return Err(String::from_str("SEI_ANDAMENTOS_LOTE inválido (esperado inteiro > 0).")),
        };
        let andamentos_conc = match parse_unsigned_exec(
            get(vars, "SEI_ANDAMENTOS_CONC", "3").as_str(),
            usize::MAX as u64,
        ) {
            Some(v) if v > 0 => v as usize,
            _ => return Err(String::from_str("SEI_ANDAMENTOS_CONC inválido (esperado inteiro > 0).")),
        };
        Ok(AppConfig {
            bind: get(vars, "EUSEI_BIND", "127.0.0.1:18088"),
            tokens,
            sei: SeiConfig {
                url: get(vars, "SEI_URL", "https://sei.pe.gov.br/sei/ws/SeiWS.php"),
                sigla_sistema: get(vars, "SEI_SIGLA_SISTEMA", "HORTENSIAS"),
                identificacao_servico,
                id_unidade: get(vars, "SEI_ID_UNIDADE", ""),
                timeout_secs,
                andamentos_lote,
                andamentos_conc,
            },
            sip: SipConfig {
                url: get(vars, "SEI_SIP_URL", "https://sei.pe.gov.br/sip/controlador_ws.php?servico=sip"),
                chave_acesso: get(vars, "SEI_SIP_CHAVE_ACESSO", ""),
                id_sistema: get(vars, "SEI_SIP_ID_SISTEMA", ""),
            },
            log_filter: get(vars, "RUST_LOG", "eusei=info,tower_http=info"),
        })
    }
}

/// Names what `{:?}` writes for a string (std's `Debug` for `str`): the
/// text quoted, with quotes, backslashes, control and non-printable
/// characters escaped.
pub uninterp spec fn debug_quoted(s: Seq<char>) -> Seq<char>;

/// `format!("{:?}", s)` on a string slice: claimed to return `debug_quoted`
/// of its text.
#[verifier::external_body]
fn debug_str(s: &str) -> (r: String)
    ensures
        r@ == debug_quoted(s@),
{
    format!("{:?}", s)
}

/// How a secret is shown: only its size in bytes, never its value.
pub open spec fn redacted(s: Seq<char>) -> Seq<char> {
    if s.len() == 0 {
        "\"\""@
    } else {
        "\"***\" ("@ + decimal(encode_utf8(s).len()) + " chars)"@
    }
}

fn push_quoted(out: &mut String, s: &str)
    ensures
        final(out)@ == old(out)@ + debug_quoted(s@),
{
    let q = debug_str(s);
    out.append(q.as_str());
}

/// Shows a secret only by its size in bytes.
pub fn redigido(s: &str) -> (r: String)
    ensures
        r@ == redacted(s@),
{
    if s.is_empty() {
        String::from_str("\"\"")
    } else {
        let mut r = String::from_str("\"***\" (");
        let n = decimal_string(s.as_bytes().len() as u64);
        r.append(n.as_str());
        r.append(" chars)");
        r
    }
}

/// The debug text of the SEI settings (the access key is redacted).
pub open spec fn sei_debug(c: SeiConfig) -> Seq<char> {
    "SeiConfig { url: "@ + debug_quoted(c.url@) + ", sigla_sistema: "@ + debug_quoted(c.sigla_sistema@)
        + ", identificacao_servico: "@ + redacted(c.identificacao_servico@) + ", id_unidade: "@
        + debug_quoted(c.id_unidade@) + ", timeout_secs: "@ + decimal(c.timeout_secs as nat)
        + ", andamentos_lote: "@ + decimal(c.andamentos_lote as nat) + ", andamentos_conc: "@
        + decimal(c.andamentos_conc as nat) + " }"@
}

/// The debug text of the SIP settings (the access key is redacted).
pub open spec fn sip_debug(c: SipConfig) -> Seq<char> {
    "SipConfig { url: "@ + debug_quoted(c.url@) + ", chave_acesso: "@ + redacted(c.chave_acesso@)
        + ", id_sistema: "@ + debug_quoted(c.id_sistema@) + " }"@
}

/// The debug text of the configuration: tokens are only counted.
pub open spec fn app_debug(c: AppConfig) -> Seq<char> {
    "AppConfig { bind: "@ + debug_quoted(c.bind@) + ", tokens: ["@ + decimal(c.tokens@.len())
        + " token(s) ***], sei: "@ + sei_debug(c.sei) + ", sip: "@ + sip_debug(c.sip)
        + ", log_filter: "@ + debug_quoted(c.log_filter@) + " }"@
}

/// Whether two secrets show the same when redacted: both empty, or both
/// not empty with the same size in bytes.
pub open spec fn same_size(x: Seq<char>, y: Seq<char>) -> bool {
    (x.len() == 0) == (y.len() == 0) && encode_utf8(x).len() == encode_utf8(y).len()
}

/// The debug text shows nothing of the secrets but their sizes: two
/// configurations that differ only in the values of their tokens (as many
/// of them) and of their access keys (of the same sizes) have the same
/// debug text.
pub proof fn law_debug_hides_secrets(a: AppConfig, b: AppConfig)
    requires
        a.bind@ == b.bind@,
        a.log_filter@ == b.log_filter@,
        a.tokens@.len() == b.tokens@.len(),
        a.sei.url@ == b.sei.url@,
        a.sei.sigla_sistema@ == b.sei.sigla_sistema@,
        a.sei.id_unidade@ == b.sei.id_unidade@,
        a.sei.timeout_secs == b.sei.timeout_secs,
        a.sei.andamentos_lote == b.sei.andamentos_lote,
        a.sei.andamentos_conc == b.sei.andamentos_conc,
        a.sip.url@ == b.sip.url@,
        a.sip.id_sistema@ == b.sip.id_sistema@,
        same_size(a.sei.identificacao_servico@, b.sei.identificacao_servico@),
        same_size(a.sip.chave_acesso@, b.sip.chave_acesso@),
    ensures
        app_debug(a) == app_debug(b),
{
    assert(redacted(a.sei.identificacao_servico@) == redacted(b.sei.identificacao_servico@));
    assert(redacted(a.sip.chave_acesso@) == redacted(b.sip.chave_acesso@));
    assert(sei_debug(a.sei) == sei_debug(b.sei));
    assert(sip_debug(a.sip) == sip_debug(b.sip));
}

impl SeiConfig {
    /// A debug text that never shows the access key.
    pub fn debug_text(&self) -> (r: String)
        ensures
            r@ == sei_debug(*self),
    {
        let mut r = String::from_str("SeiConfig { url: ");
        push_quoted(&mut r, self.url.as_str());
        r.append(", sigla_sistema: ");
        push_quoted(&mut r, self.sigla_sistema.as_str());
        r.append(", identificacao_servico: ");
        let red = redigido(self.identificacao_servico.as_str());
        r.append(red.as_str());
        r.append(", id_unidade: ");
        push_quoted(&mut r, self.id_unidade.as_str());
        r.append(", timeout_secs: ");
        let t = decimal_string(self.timeout_secs);
        r.append(t.as_str());
        r.append(", andamentos_lote: ");
        let l = decimal_string(self.andamentos_lote as u64);
        r.append(l.as_str());
        r.append(", andamentos_conc: ");
        let c = decimal_string(self.andamentos_conc as u64);
        r.append(c.as_str());
        r.append(" }");
        r
    }
}

impl SipConfig {
    /// A debug text that never shows the access key.
    pub fn debug_text(&self) -> (r: String)
        ensures
            r@ == sip_debug(*self),
    {
        let mut r = String::from_str("SipConfig { url: ");
        push_quoted(&mut r, self.url.as_str());
        r.append(", chave_acesso: ");
        let red = redigido(self.chave_acesso.as_str());
        r.append(red.as_str());
        r.append(", id_sistema: ");
        push_quoted(&mut r, self.id_sistema.as_str());
        r.append(" }");
        r
    }
}

impl AppConfig {
    /// A debug text that never shows the tokens nor the access keys.
    pub fn debug_text(&self) -> (r: String)
        ensures
            r@ == app_debug(*self),
    {
        let mut r = String::from_str("AppConfig { bind: ");
        push_quoted(&mut r, self.bind.as_str());
        r.append(", tokens: [");
        let n = decimal_string(self.tokens.len() as u64);
        r.append(n.as_str());
        r.append(" token(s) ***], sei: ");
        let s = self.sei.debug_text();
        r.append(s.as_str());
        r.append(", sip: ");
        let p = self.sip.debug_text();
        r.append(p.as_str());
        r.append(", log_filter: ");
        push_quoted(&mut r, self.log_filter.as_str());
        r.append(" }");
        r
    }
}


/// What a configuration that the environment gives always holds: at least
/// one client token, each of them non-empty, without whitespace at either
/// end, without a comma and not the example placeholder; a non-empty SEI
/// access key; and a positive batch size and number of batches at once.
pub proof fn law_config_shape(c: AppConfig, vars: Seq<(String, String)>)
    requires
        config_error(vars) is None,
        configured_from(c, vars),
    ensures
        c.tokens@.len() > 0,
        forall|k: int|
            0 <= k < c.tokens@.len() ==> {
                let t = (#[trigger] c.tokens@[k])@;
                &&& t.len() > 0
                &&& trimmed(t) == t
                &&& !t.contains(',')
                &&& !starts_with_chars(uppercase(t), "TROQUE"@)
            },
        c.sei.identificacao_servico@.len() > 0,
        c.sei.andamentos_lote > 0,
        c.sei.andamentos_conc > 0,
{
    let tokens = tokens_of(vars);
    law_comma_items_clean(env_or(vars, "EUSEI_TOKENS"@, ""@));
    assert(texts(c.tokens@).len() == c.tokens@.len());
    assert forall|k: int| 0 <= k < c.tokens@.len() implies {
        let t = (#[trigger] c.tokens@[k])@;
        &&& t.len() > 0
        &&& trimmed(t) == t
        &&& !t.contains(',')
        &&& !starts_with_chars(uppercase(t), "TROQUE"@)
    } by {
        assert(texts(c.tokens@)[k] == c.tokens@[k]@);
        assert(tokens[k] == c.tokens@[k]@);
        if starts_with_chars(uppercase(tokens[k]), "TROQUE"@) {
            assert(has_placeholder(tokens));
        }
    }
}

} // verus!
