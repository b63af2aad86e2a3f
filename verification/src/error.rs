//! Errors of the gateway and the JSON answer each of them becomes.

use vstd::prelude::*;
use crate::json::{Json, JsonV};

verus! {

/// The errors the gateway answers with.
#[derive(Debug)]
pub enum AppError {
    /// Missing or invalid Bearer token.
    Unauthorized,
    /// A request parameter is missing or invalid.
    BadRequest(String),
    /// The SEI could not be reached (network, firewall, server down).
    SeiUnavailable,
    /// The SEI took too long to answer.
    Timeout,
    /// The SEI answered with an HTTP error (not a SOAP Fault).
    Upstream(String),
    /// The SEI answered with a SOAP Fault (unknown protocol, access denied, ...).
    SoapFault { code: String, string: String },
    /// The SEI's answer could not be interpreted.
    Parse(String),
}

impl Clone for AppError {
    fn clone(&self) -> (r: Self)
        ensures
            r == *self,
    {
        match self {
            AppError::Unauthorized => AppError::Unauthorized,
            AppError::BadRequest(m) => AppError::BadRequest(m.clone()),
            AppError::SeiUnavailable => AppError::SeiUnavailable,
            AppError::Timeout => AppError::Timeout,
            AppError::Upstream(m) => AppError::Upstream(m.clone()),
            AppError::SoapFault { code, string } => AppError::SoapFault {
                code: code.clone(),
                string: string.clone(),
            },
            AppError::Parse(m) => AppError::Parse(m.clone()),
        }
    }
}

/// Failures of the SEI's infrastructure, the ones for which an older cached
/// answer may be served instead.
pub open spec fn is_infra_failure(e: AppError) -> bool {
    e is SeiUnavailable || e is Timeout || e is Upstream || e is Parse
}

/// The stable machine-readable code of each error.
pub open spec fn codigo_of(e: AppError) -> Seq<char> {
    match e {
        AppError::Unauthorized => "nao_autorizado"@,
        AppError::BadRequest(_) => "parametro_invalido"@,
        AppError::SeiUnavailable => "sei_indisponivel"@,
        AppError::Timeout => "sei_timeout"@,
        AppError::Upstream(_) => "sei_erro_http"@,
        AppError::SoapFault { .. } => "sei_fault"@,
        AppError::Parse(_) => "resposta_invalida"@,
    }
}

/// The human-readable text of each error.
pub open spec fn mensagem_of(e: AppError) -> Seq<char> {
    match e {
        AppError::Unauthorized => "não autorizado"@,
        AppError::BadRequest(m) => m@,
        AppError::SeiUnavailable => "SEI indisponível"@,
        AppError::Timeout => "tempo de resposta do SEI esgotado"@,
        AppError::Upstream(m) => "falha ao acessar o SEI: "@ + m@,
        AppError::SoapFault { code, string } => "SOAP Fault ["@ + code@ + "]: "@ + string@,
        AppError::Parse(m) => "erro ao processar resposta do SEI: "@ + m@,
    }
}

/// The HTTP status of each error.
pub open spec fn status_of(e: AppError) -> u16 {
    match e {
        AppError::Unauthorized => 401,
        AppError::BadRequest(_) => 400,
        AppError::SeiUnavailable => 503,
        AppError::Timeout => 504,
        AppError::Upstream(_) => 502,
        AppError::SoapFault { .. } => 400,
        AppError::Parse(_) => 502,
    }
}

/// The message shown to the client for each error.
pub open spec fn erro_of(e: AppError) -> Seq<char> {
    match e {
        AppError::Unauthorized => "Não autorizado. Envie um token válido em 'Authorization: Bearer <token>'."@,
        AppError::BadRequest(m) => m@,
        AppError::SeiUnavailable => "O SEI está temporariamente indisponível. Não foi possível conectar ao servidor do SEI; tente novamente em alguns minutos."@,
        AppError::Timeout => "O SEI demorou demais para responder. Tente novamente em alguns instantes."@,
        AppError::SoapFault { string, .. } => string@,
        AppError::Upstream(_) => "O SEI respondeu com um erro inesperado."@,
        AppError::Parse(_) => "Não foi possível interpretar a resposta do SEI."@,
    }
}

/// The technical detail attached to each error, if any.
pub open spec fn detalhe_of(e: AppError) -> Option<Seq<char>> {
    match e {
        AppError::Upstream(m) => Some(m@),
        AppError::Parse(m) => Some(m@),
        _ => None,
    }
}

/// The JSON body answered for an error.
pub open spec fn corpo_of(e: AppError) -> JsonV {
    JsonV::Obj(
        seq![
            ("ok"@, JsonV::Bool(false)),
            ("codigo"@, JsonV::Str(codigo_of(e))),
            ("erro"@, JsonV::Str(erro_of(e))),
            ("detalhe"@, match detalhe_of(e) {
                Some(d) => JsonV::Str(d),
                None => JsonV::Null,
            }),
        ],
    )
}

impl AppError {
    /// Whether an older cached answer may be served in place of this error:
    /// only for failures of the SEI's infrastructure, never for a SOAP Fault
    /// (a meaningful answer) nor for a client error.
    pub fn permite_stale(&self) -> (r: bool)
        ensures
            r == is_infra_failure(*self),
    {
        match self {
            AppError::SeiUnavailable | AppError::Timeout | AppError::Upstream(_)
            | AppError::Parse(_) => true,
            _ => false,
        }
    }

    /// The stable machine-readable code of this error.
    pub fn codigo(&self) -> (r: &'static str)
        ensures
            r@ == codigo_of(*self),
    {
        match self {
            AppError::Unauthorized => "nao_autorizado",
            AppError::BadRequest(_) => "parametro_invalido",
            AppError::SeiUnavailable => "sei_indisponivel",
            AppError::Timeout => "sei_timeout",
            AppError::Upstream(_) => "sei_erro_http",
            AppError::SoapFault { .. } => "sei_fault",
            AppError::Parse(_) => "resposta_invalida",
        }
    }

    /// The human-readable text of this error.
    pub fn mensagem(&self) -> (r: String)
        ensures
            r@ == mensagem_of(*self),
    {
        match self {
            AppError::Unauthorized => String::from_str("não autorizado"),
            AppError::BadRequest(m) => m.clone(),
            AppError::SeiUnavailable => String::from_str("SEI indisponível"),
            AppError::Timeout => String::from_str("tempo de resposta do SEI esgotado"),
            AppError::Upstream(m) => {
                let mut r = String::from_str("falha ao acessar o SEI: ");
                r.append(m.as_str());
                r
            },
            AppError::SoapFault { code, string } => {
                let mut r = String::from_str("SOAP Fault [");
                r.append(code.as_str());
                r.append("]: ");
                r.append(string.as_str());
                r
            },
            AppError::Parse(m) => {
                let mut r = String::from_str("erro ao processar resposta do SEI: ");
                r.append(m.as_str());
                r
            },
        }
    }

    /// The HTTP status of this error.
    pub fn status(&self) -> (r: u16)
        ensures
            r == status_of(*self),
    {
        match self {
            AppError::Unauthorized => 401,
            AppError::BadRequest(_) => 400,
            AppError::SeiUnavailable => 503,
            AppError::Timeout => 504,
            AppError::Upstream(_) => 502,
            AppError::SoapFault { .. } => 400,
            AppError::Parse(_) => 502,
        }
    }

    /// The message shown to the client.
    pub fn erro(&self) -> (r: String)
        ensures
            r@ == erro_of(*self),
    {
        match self {
            AppError::Unauthorized => String::from_str(
                "Não autorizado. Envie um token válido em 'Authorization: Bearer <token>'.",
            ),
            AppError::BadRequest(m) => m.clone(),
            AppError::SeiUnavailable => String::from_str(
                "O SEI está temporariamente indisponível. Não foi possível conectar ao servidor do SEI; tente novamente em alguns minutos.",
            ),
            AppError::Timeout => String::from_str(
                "O SEI demorou demais para responder. Tente novamente em alguns instantes.",
            ),
            AppError::SoapFault { string, .. } => string.clone(),
            AppError::Upstream(_) => String::from_str("O SEI respondeu com um erro inesperado."),
            AppError::Parse(_) => String::from_str(
                "Não foi possível interpretar a resposta do SEI.",
            ),
        }
    }

    /// The technical detail of this error, if any.
    pub fn detalhe(&self) -> (r: Option<String>)
        ensures
            r matches Some(d) ==> detalhe_of(*self) == Some(d@),
            r is None ==> detalhe_of(*self) is None,
    {
        match self {
            AppError::Upstream(m) => Some(m.clone()),
            AppError::Parse(m) => Some(m.clone()),
            _ => None,
        }
    }

    /// The JSON body answered for this error:
    /// `{ "ok": false, "codigo", "erro", "detalhe" }`.
    pub fn corpo(&self) -> (r: Json)
        ensures
            r@ == corpo_of(*self),
    {
        let detalhe = match self.detalhe() {
            Some(d) => Json::Str(d),
            None => Json::Null,
        };
        let members: Vec<(String, Json)> = vec![
            (String::from_str("ok"), Json::Bool(false)),
            (String::from_str("codigo"), Json::Str(String::from_str(self.codigo()))),
            (String::from_str("erro"), Json::Str(self.erro())),
            (String::from_str("detalhe"), detalhe),
        ];
        proof {
            crate::json::lemma_obj_view(members);
            assert(crate::json::member_views(members@) =~= corpo_of(*self)->Obj_0);
        }
        let r = Json::Obj(members);
        r
    }
}

} // verus!
