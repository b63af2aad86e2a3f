//! Requests to the SEI and the SIP: the authentication parameters each one
//! needs, the envelope, and the S/N flags of the SEI.

use vstd::prelude::*;
use crate::config::{AppConfig, SeiConfig};
use crate::envelope::{Param, build_envelope, envelope_text};
use crate::error::AppError;
use crate::text::{trim_str, trimmed};

verus! {

/// A SOAP request ready to be sent.
#[derive(Debug)]
pub struct SoapRequest {
    pub url: String,
    pub timeout_secs: u64,
    pub operation: String,
    pub soap_action: String,
    pub envelope: String,
}

/// Scalar parameters as envelope parameters, in order.
pub open spec fn scalars_of<'a>(extra: Seq<(&'a str, String)>) -> Seq<(&'a str, Param)> {
    Seq::new(extra.len(), |i: int| (extra[i].0, Param::Scalar(extra[i].1)))
}

/// Turns scalar parameters into envelope parameters, keeping their order.
pub fn scalar_params<'a>(extra: &[(&'a str, String)]) -> (r: Vec<(&'a str, Param)>)
    ensures
        r@ == scalars_of(extra@),
{
    let mut r: Vec<(&'a str, Param)> = Vec::new();
    let mut i: usize = 0;
    while i < extra.len()
        invariant
            i <= extra.len(),
            r@ == scalars_of(extra@.subrange(0, i as int)),
        decreases extra.len() - i,
    {
        let (k, v) = &extra[i];
        r.push((*k, Param::Scalar(v.clone())));
        i = i + 1;
        assert(r@ =~= scalars_of(extra@.subrange(0, i as int)));
    }
    assert(extra@.subrange(0, extra@.len() as int) == extra@);
    r
}

/// The parameters of an SEI operation: the system's credentials, the unit
/// when asked for, then the operation's own.
pub open spec fn sei_params_of<'a>(
    cfg: SeiConfig,
    include_unidade: bool,
    extra: Seq<(&'a str, Param)>,
) -> Seq<(&'a str, Param)> {
    let base = seq![
        ("SiglaSistema", Param::Scalar(cfg.sigla_sistema)),
        ("IdentificacaoServico", Param::Scalar(cfg.identificacao_servico)),
    ];
    if include_unidade {
        base.push(("IdUnidade", Param::Scalar(cfg.id_unidade))) + extra
    } else {
        base + extra
    }
}

/// Builds the request of an SEI operation. The system's credentials are
/// added here and never come from the client.
pub fn sei_request<'a>(
    cfg: &SeiConfig,
    operation: &str,
    include_unidade: bool,
    extra: Vec<(&'a str, Param)>,
) -> (r: SoapRequest)
    ensures
        r.url == cfg.url,
        r.timeout_secs == cfg.timeout_secs,
        r.operation@ == operation@,
        r.soap_action@ == "SeiAction"@,
        r.envelope@ == envelope_text(
            operation@,
            sei_params_of(*cfg, include_unidade, extra@),
            "sei"@,
            "Sei"@,
        ),
{
    let mut params: Vec<(&'a str, Param)> = vec![
        ("SiglaSistema", Param::Scalar(cfg.sigla_sistema.clone())),
        ("IdentificacaoServico", Param::Scalar(cfg.identificacao_servico.clone())),
    ];
    if include_unidade {
        params.push(("IdUnidade", Param::Scalar(cfg.id_unidade.clone())));
    }
    let ghost base = params@;
    let ghost ev = extra@;
    let mut extra = extra;
    params.append(&mut extra);
    assert(params@ =~= sei_params_of(*cfg, include_unidade, ev));
    let envelope = build_envelope(operation, params.as_slice(), "sei", "Sei");
    SoapRequest {
        url: cfg.url.clone(),
        timeout_secs: cfg.timeout_secs,
        operation: String::from_str(operation),
        soap_action: String::from_str("SeiAction"),
        envelope,
    }
}

/// The parameters of a SIP operation: its access key and system id, then
/// the operation's own.
pub open spec fn sip_params_of<'a>(cfg: AppConfig, extra: Seq<(&'a str, Param)>) -> Seq<
    (&'a str, Param),
> {
    seq![
        ("ChaveAcesso", Param::Scalar(cfg.sip.chave_acesso)),
        ("IdSistema", Param::Scalar(cfg.sip.id_sistema)),
    ] + extra
}

/// The answer to a SIP request on a server where the SIP is not configured.
pub open spec fn sip_missing_message() -> Seq<char> {
    "Serviço SIP não configurado neste servidor (defina SEI_SIP_CHAVE_ACESSO e SEI_SIP_ID_SISTEMA)."@
}

/// Builds the request of a SIP operation, or refuses it when the SIP is
/// not configured. The SIP shares the SEI's timeout.
pub fn sip_request<'a>(cfg: &AppConfig, operation: &str, extra: Vec<(&'a str, Param)>) -> (r:
    Result<SoapRequest, AppError>)
    ensures
        !(cfg.sip.chave_acesso@.len() > 0 && cfg.sip.id_sistema@.len() > 0) <==> r is Err,
        r matches Err(e) ==> e matches AppError::BadRequest(m) && m@ == sip_missing_message(),
        r matches Ok(q) ==> {
            &&& q.url == cfg.sip.url
            &&& q.timeout_secs == cfg.sei.timeout_secs
            &&& q.operation@ == operation@
            &&& q.soap_action@ == "sipnsAction"@
            &&& q.envelope@ == envelope_text(
                operation@,
                sip_params_of(*cfg, extra@),
                "sip"@,
                "sipns"@,
            )
        },
{
    if !cfg.sip.configurado() {
        return Err(
            AppError::BadRequest(
                String::from_str(
                    "Serviço SIP não configurado neste servidor (defina SEI_SIP_CHAVE_ACESSO e SEI_SIP_ID_SISTEMA).",
                ),
            ),
        );
    }
    let mut params: Vec<(&'a str, Param)> = vec![
        ("ChaveAcesso", Param::Scalar(cfg.sip.chave_acesso.clone())),
        ("IdSistema", Param::Scalar(cfg.sip.id_sistema.clone())),
    ];
    let ghost ev = extra@;
    let mut extra = extra;
    params.append(&mut extra);
    assert(params@ =~= sip_params_of(*cfg, ev));
    let envelope = build_envelope(operation, params.as_slice(), "sip", "sipns");
    Ok(
        SoapRequest {
            url: cfg.sip.url.clone(),
            timeout_secs: cfg.sei.timeout_secs,
            operation: String::from_str(operation),
            soap_action: String::from_str("sipnsAction"),
            envelope,
        },
    )
}

/// Named scalar parameters as pairs of texts.
pub open spec fn pairs_view(v: Seq<(&str, String)>) -> Seq<(Seq<char>, Seq<char>)> {
    Seq::new(v.len(), |i: int| (v[i].0@, v[i].1@))
}

/// The text of an optional string.
pub open spec fn opt_text(o: Option<String>) -> Option<Seq<char>> {
    match o {
        Some(s) => Some(s@),
        None => None,
    }
}

/// What an S/N flag of the SEI normalizes to: absent or blank gives the
/// default, `S`/`s` and `N`/`n` give `S` and `N`, anything else is refused
/// with this message (the interface declares only the two values).
pub open spec fn flag_of(opt: Option<Seq<char>>, default_s: bool) -> Result<Seq<char>, Seq<char>> {
    let dflt = if default_s {
        "S"@
    } else {
        "N"@
    };
    match opt {
        None => Ok(dflt),
        Some(s) => {
            let t = trimmed(s);
            if t.len() == 0 {
                Ok(dflt)
            } else if t == "S"@ || t == "s"@ {
                Ok("S"@)
            } else if t == "N"@ || t == "n"@ {
                Ok("N"@)
            } else {
                Err("valor inválido para sinalizador S/N: '"@ + t + "' (use S ou N)"@)
            }
        },
    }
}

/// Normalizing a flag is idempotent: a normalized flag is accepted as it
/// is, whatever the default.
pub proof fn law_flag_idempotent(opt: Option<Seq<char>>, default_s: bool, d2: bool)
    requires
        flag_of(opt, default_s) is Ok,
    ensures
        flag_of(Some(flag_of(opt, default_s)->Ok_0), d2) == flag_of(opt, default_s),
{
    reveal_strlit("S");
    reveal_strlit("N");
    reveal_strlit("s");
    reveal_strlit("n");
    let v = flag_of(opt, default_s)->Ok_0;
    assert(v == "S"@ || v == "N"@);
    assert(crate::text::trim_start_index(v) == 0);
    assert(crate::text::trim_end_index(v.drop_last()) == 0);
    assert(crate::text::trim_end_index(v) == 1);
    assert(trimmed(v) =~= v);
    if v == "S"@ {
        assert(flag_of(Some(v), d2) == Ok::<Seq<char>, Seq<char>>("S"@));
    } else {
        assert(v != "s"@ && v != "S"@);
        assert(flag_of(Some(v), d2) == Ok::<Seq<char>, Seq<char>>("N"@));
    }
}

/// Normalizes an S/N flag of the SEI.
pub fn flag_sn(opt: &Option<String>, default_s: bool) -> (r: Result<String, AppError>)
    ensures
        match flag_of(opt_text(*opt), default_s) {
            Ok(v) => r matches Ok(x) && x@ == v,
            Err(m) => r matches Err(AppError::BadRequest(x)) && x@ == m,
        },
{
    proof {
        reveal_strlit("S");
        reveal_strlit("s");
        reveal_strlit("N");
        reveal_strlit("n");
    }
    match opt {
        None => Ok(
            if default_s {
                String::from_str("S")
            } else {
                String::from_str("N")
            },
        ),
        Some(s) => {
            let t = trim_str(s.as_str());
            let tc = t.as_str();
            if tc.is_empty() {
                Ok(
                    if default_s {
                        String::from_str("S")
                    } else {
                        String::from_str("N")
                    },
                )
            } else if crate::text::str_eq(tc, "S") || crate::text::str_eq(tc, "s") {
                Ok(String::from_str("S"))
            } else if crate::text::str_eq(tc, "N") || crate::text::str_eq(tc, "n") {
                Ok(String::from_str("N"))
            } else {
                let mut m = String::from_str("valor inválido para sinalizador S/N: '");
                m.append(tc);
                m.append("' (use S ou N)");
                Err(AppError::BadRequest(m))
            }
        },
    }
}

} // verus!
