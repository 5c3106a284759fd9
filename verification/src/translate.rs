//! The responses of the MyMemory translation service.
use vstd::prelude::*;

use crate::numerals::{i64_of, parse_i64, signed_decimal, to_signed_decimal};
use crate::text::{contains_text, has_text, trim, trimmed};

verus! {

/// Where translations are asked for.
pub const ENDPOINT: &'static str = "https://api.mymemory.translated.net/get";

/// From any language to English.
pub const LANGUAGE_PAIR: &'static str = "Autodetect|en";

/// What the service says of a text that is English already.
pub const SAME_LANGUAGE: &'static str = "PLEASE SELECT TWO DISTINCT LANGUAGES";

/// The status of a response: the service sends it now as a number, now as a
/// text.
#[derive(Debug)]
pub enum ResponseStatus {
    /// A number, if it is a whole one that fits.
    Number(Option<i64>),
    Text(String),
    /// None at all, or of another kind.
    Other,
}

/// The value of a [`ResponseStatus`].
pub enum StatusModel {
    Number(Option<i64>),
    Text(Seq<char>),
    Other,
}

impl DeepView for ResponseStatus {
    type V = StatusModel;

    open spec fn deep_view(&self) -> StatusModel {
        match self {
            ResponseStatus::Number(n) => StatusModel::Number(*n),
            ResponseStatus::Text(t) => StatusModel::Text(t@),
            ResponseStatus::Other => StatusModel::Other,
        }
    }
}

/// A response of the service.
#[derive(Debug)]
pub struct MyMemoryResponse {
    /// The translation, if the response holds data at all.
    pub translated_text: Option<String>,
    pub status: ResponseStatus,
    pub details: String,
}

/// The value of a [`MyMemoryResponse`].
pub struct MyMemoryModel {
    pub translated_text: Option<Seq<char>>,
    pub status: StatusModel,
    pub details: Seq<char>,
}

impl DeepView for MyMemoryResponse {
    type V = MyMemoryModel;

    open spec fn deep_view(&self) -> MyMemoryModel {
        MyMemoryModel {
            translated_text: self.translated_text.deep_view(),
            status: self.status.deep_view(),
            details: self.details@,
        }
    }
}

/// The number that a status stands for; zero where it stands for none.
pub open spec fn status_code(status: StatusModel) -> int {
    match status {
        StatusModel::Number(Some(n)) => n as int,
        StatusModel::Text(t) => match i64_of(t) {
            Some(n) => n,
            None => 0,
        },
        _ => 0,
    }
}

/// A translation that failed: the status and what the service says of it.
#[derive(Debug, PartialEq, Eq)]
pub struct TranslateError {
    pub status: i64,
    pub details: String,
}

/// The error in words.
pub open spec fn translate_error_text(status: int, details: Seq<char>) -> Seq<char> {
    "translation failed ("@ + signed_decimal(status) + "): "@ + details
}

impl TranslateError {
    /// The error in words.
    pub fn text(&self) -> (r: String)
        ensures
            r@ == translate_error_text(self.status as int, self.details@),
    {
        let mut r = "translation failed (".to_owned();
        r.append(&to_signed_decimal(self.status));
        r.append("): ");
        r.append(&self.details);
        r
    }
}

/// The English text of a successful response: none where there is nothing but
/// white space.
pub open spec fn english_text(text: Option<Seq<char>>) -> Option<Seq<char>> {
    match text {
        Some(t) if trimmed(t).len() > 0 => Some(trimmed(t)),
        _ => None,
    }
}

/// What a response of the service says: the English text, or none where the text
/// was English already; or the status and the details of a failure.
pub open spec fn answer_in(m: MyMemoryModel) -> Result<Option<Seq<char>>, (int, Seq<char>)> {
    if has_text(m.details, SAME_LANGUAGE@) {
        Ok(None)
    } else if status_code(m.status) != 200 {
        Err((status_code(m.status), m.details))
    } else {
        Ok(english_text(m.translated_text))
    }
}

/// Reads a response of the service: the English text, or `None` where the text
/// was English already. A response whose status is not 200 is an error, but
/// for the one that says the languages are the same.
pub fn parse_mymemory(r: &MyMemoryResponse) -> (out: Result<Option<String>, TranslateError>)
    ensures
        ({
            let m = r.deep_view();
            if has_text(m.details, SAME_LANGUAGE@) {
                out is Ok && out->Ok_0 is None
            } else if status_code(m.status) != 200 {
                out is Err && out->Err_0.status == status_code(m.status) && out->Err_0.details@
                    == m.details
            } else {
                out is Ok && out->Ok_0.deep_view() == english_text(m.translated_text)
            }
        }),
        match answer_in(r.deep_view()) {
            Ok(t) => out is Ok && out->Ok_0.deep_view() == t,
            Err(e) => out is Err && out->Err_0.status == e.0 && out->Err_0.details@ == e.1,
        },
{
    let status: i64 = match &r.status {
        ResponseStatus::Number(n) => match n {
            Some(n) => *n,
            None => 0,
        },
        ResponseStatus::Text(t) => match parse_i64(t) {
            Some(n) => n,
            None => 0,
        },
        ResponseStatus::Other => 0,
    };
    if contains_text(&r.details, SAME_LANGUAGE) {
        return Ok(None);
    }
    if status != 200 {
        return Err(TranslateError { status, details: r.details.clone() });
    }
    match &r.translated_text {
        Some(t) => {
            let text = trim(t);
            if text.as_str().is_empty() {
                Ok(None)
            } else {
                Ok(Some(text))
            }
        },
        None => Ok(None),
    }
}

} // verus!
