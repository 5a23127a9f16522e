//! HTTP status codes and their reason phrases.

use vstd::prelude::*;
use vstd::string::StringExecFns;

verus! {

/// The named HTTP response statuses.
pub enum Status {
    // Information responses
    Continue,
    SwitchingProtocols,
    Processing,
    EarlyHints,
    // Successful responses
    Okay,
    Created,
    Accepted,
    NonAuthoritativeInformation,
    NoContent,
    ResetContent,
    PartialContent,
    MultiStatus,
    AlreadyReported,
    ImUsed,
    // Redirection messages
    MultipleChoices,
    MovedPermanently,
    Found,
    SeeOther,
    NotModified,
    UseProxy,
    UnUsed,
    TemporaryRedirect,
    PermanentRedirect,
    // Client error responses
    BadRequest,
    UnAuthorized,
    PaymentRequired,
    Forbidden,
    NotFound,
    MethodNotAllowed,
    NotAcceptable,
    ProxyAuthenticationRequired,
    RequestTimeout,
    Conflict,
    Gone,
    LengthRequired,
    PreconditionFailed,
    PayloadTooLarge,
    UriTooLong,
    UnsupportedMediaType,
    RangeNotSatisfiable,
    ExpectationFailed,
    ImaTeaPot,
    MisRedirectRequest,
    UnprocessableContent,
    Locked,
    FailedDependency,
    TooEarly,
    UpgradeRequired,
    PreconditionRequired,
    TooManyRequests,
    RequestHeaderFieldsTooLarge,
    UnavailableForLegalReasons,
    // Server error responses
    InternalServerError,
    NotImplemented,
    BadGateway,
    ServiceUnavailable,
    GatewayTimeout,
    HttpVersionNotSupported,
    VariantAlsoNegotiates,
    InsufficientStorage,
    LoopDetected,
    NotExtended,
    NetworkAuthenticationRequired,
}

/// The numeric code of each status.
pub open spec fn status_code_spec(s: Status) -> int {
    match s {
        Status::Continue => 100,
        Status::SwitchingProtocols => 101,
        Status::Processing => 102,
        Status::EarlyHints => 103,
        Status::Okay => 200,
        Status::Created => 201,
        Status::Accepted => 202,
        Status::NonAuthoritativeInformation => 203,
        Status::NoContent => 204,
        Status::ResetContent => 205,
        Status::PartialContent => 206,
        Status::MultiStatus => 207,
        Status::AlreadyReported => 208,
        Status::ImUsed => 226,
        Status::MultipleChoices => 300,
        Status::MovedPermanently => 301,
        Status::Found => 302,
        Status::SeeOther => 303,
        Status::NotModified => 304,
        Status::UseProxy => 305,
        Status::UnUsed => 306,
        Status::TemporaryRedirect => 307,
        Status::PermanentRedirect => 308,
        Status::BadRequest => 400,
        Status::UnAuthorized => 401,
        Status::PaymentRequired => 402,
        Status::Forbidden => 403,
        Status::NotFound => 404,
        Status::MethodNotAllowed => 405,
        Status::NotAcceptable => 406,
        Status::ProxyAuthenticationRequired => 407,
        Status::RequestTimeout => 408,
        Status::Conflict => 409,
        Status::Gone => 410,
        Status::LengthRequired => 411,
        Status::PreconditionFailed => 412,
        Status::PayloadTooLarge => 413,
        Status::UriTooLong => 414,
        Status::UnsupportedMediaType => 415,
        Status::RangeNotSatisfiable => 416,
        Status::ExpectationFailed => 417,
        Status::ImaTeaPot => 418,
        Status::MisRedirectRequest => 421,
        Status::UnprocessableContent => 422,
        Status::Locked => 423,
        Status::FailedDependency => 424,
        Status::TooEarly => 425,
        Status::UpgradeRequired => 426,
        Status::PreconditionRequired => 428,
        Status::TooManyRequests => 429,
        Status::RequestHeaderFieldsTooLarge => 431,
        Status::UnavailableForLegalReasons => 451,
        Status::InternalServerError => 500,
        Status::NotImplemented => 501,
        Status::BadGateway => 502,
        Status::ServiceUnavailable => 503,
        Status::GatewayTimeout => 504,
        Status::HttpVersionNotSupported => 505,
        Status::VariantAlsoNegotiates => 506,
        Status::InsufficientStorage => 507,
        Status::LoopDetected => 508,
        Status::NotExtended => 510,
        Status::NetworkAuthenticationRequired => 511,
    }
}

/// The reason phrase for each known numeric code.
pub open spec fn status_text_spec(code: int) -> Option<Seq<char>> {
    if code == 100 {
        Some("Continue"@)
    } else if code == 101 {
        Some("Switching Protocols"@)
    } else if code == 102 {
        Some("Processing"@)
    } else if code == 103 {
        Some("Early Hints"@)
    } else if code == 200 {
        Some("OK"@)
    } else if code == 201 {
        Some("Created"@)
    } else if code == 202 {
        Some("Accepted"@)
    } else if code == 203 {
        Some("Non-Authoritative Information"@)
    } else if code == 204 {
        Some("No Content"@)
    } else if code == 205 {
        Some("Reset Content"@)
    } else if code == 206 {
        Some("Partial Content"@)
    } else if code == 207 {
        Some("Multi_Status"@)
    } else if code == 208 {
        Some("Already Reported"@)
    } else if code == 226 {
        Some("IM Used"@)
    } else if code == 300 {
        Some("Multiple Choices"@)
    } else if code == 301 {
        Some("Moved permanently"@)
    } else if code == 302 {
        Some("Found"@)
    } else if code == 303 {
        Some("See Other"@)
    } else if code == 304 {
        Some("Not Modified"@)
    } else if code == 305 {
        Some("Use Proxy"@)
    } else if code == 306 {
        Some("unused"@)
    } else if code == 307 {
        Some("Temporary Redirect"@)
    } else if code == 308 {
        Some("Permanent Redirect"@)
    } else if code == 400 {
        Some("Bad Request"@)
    } else if code == 401 {
        Some("Unauthorized"@)
    } else if code == 402 {
        Some("Payment Required"@)
    } else if code == 403 {
        Some("Forbidden"@)
    } else if code == 404 {
        Some("Not Found"@)
    } else if code == 405 {
        Some("Method Not Allowed"@)
    } else if code == 406 {
        Some("Not Acceptable"@)
    } else if code == 407 {
        Some("Proxy Authentication Required"@)
    } else if code == 408 {
        Some("Request Timeout"@)
    } else if code == 409 {
        Some("Conflict"@)
    } else if code == 410 {
        Some("Gone"@)
    } else if code == 411 {
        Some("Length Required"@)
    } else if code == 412 {
        Some("Precondition Failed"@)
    } else if code == 413 {
        Some("Payload Too Large"@)
    } else if code == 414 {
        Some("URI Too Long"@)
    } else if code == 415 {
        Some("Unsupported Media Type"@)
    } else if code == 416 {
        Some("Range Not Satisfiable"@)
    } else if code == 417 {
        Some("Expectation Failed"@)
    } else if code == 418 {
        Some("I',m a teapot"@)
    } else if code == 421 {
        Some("Misdirected Request"@)
    } else if code == 422 {
        Some("Unprocessable Content"@)
    } else if code == 423 {
        Some("Locked"@)
    } else if code == 424 {
        Some("Failed Dependency"@)
    } else if code == 425 {
        Some("Too Early"@)
    } else if code == 426 {
        Some("Upgrade Required"@)
    } else if code == 428 {
        Some("Precondition Required"@)
    } else if code == 429 {
        Some("Too Many Requests"@)
    } else if code == 431 {
        Some("Request Header Fields Too Large"@)
    } else if code == 451 {
        Some("Unavailable For Legal Reasons"@)
    } else if code == 500 {
        Some("Internal Server Error"@)
    } else if code == 501 {
        Some("Not Implemented"@)
    } else if code == 502 {
        Some("Bad Gateway"@)
    } else if code == 503 {
        Some("Service Unavailable"@)
    } else if code == 504 {
        Some("Gateway Timeout"@)
    } else if code == 505 {
        Some("HTTP Version Not Supported"@)
    } else if code == 506 {
        Some("Variant Also Negotiates"@)
    } else if code == 507 {
        Some("Insufficient Storage"@)
    } else if code == 508 {
        Some("Loop Detected"@)
    } else if code == 510 {
        Some("Not Extended"@)
    } else if code == 511 {
        Some("Network Authentication Required"@)
    } else {
        None
    }
}

/// Lookup from a status to its numeric code and from a code to its reason
/// phrase.
pub trait StatusMethods: Sized {
    spec fn spec_code(&self) -> int;

    fn status_code(&self) -> (r: Option<usize>)
        ensures
            r matches Some(c) && c == self.spec_code(),
    ;

    fn status_text(status_code: usize) -> (r: Option<String>)
        ensures
            match status_text_spec(status_code as int) {
                Some(t) => r matches Some(s) && s@ == t,
                None => r is None,
            },
    ;
}

impl StatusMethods for Status {
    open spec fn spec_code(&self) -> int {
        status_code_spec(*self)
    }

    fn status_code(&self) -> (r: Option<usize>) {
        Some(self.code())
    }

    fn status_text(status_code: usize) -> (r: Option<String>) {
        if status_code == 100 {
            Some(String::from_str("Continue"))
        } else if status_code == 101 {
            Some(String::from_str("Switching Protocols"))
        } else if status_code == 102 {
            Some(String::from_str("Processing"))
        } else if status_code == 103 {
            Some(String::from_str("Early Hints"))
        } else if status_code == 200 {
            Some(String::from_str("OK"))
        } else if status_code == 201 {
            Some(String::from_str("Created"))
        } else if status_code == 202 {
            Some(String::from_str("Accepted"))
        } else if status_code == 203 {
            Some(String::from_str("Non-Authoritative Information"))
        } else if status_code == 204 {
            Some(String::from_str("No Content"))
        } else if status_code == 205 {
            Some(String::from_str("Reset Content"))
        } else if status_code == 206 {
            Some(String::from_str("Partial Content"))
        } else if status_code == 207 {
            Some(String::from_str("Multi_Status"))
        } else if status_code == 208 {
            Some(String::from_str("Already Reported"))
        } else if status_code == 226 {
            Some(String::from_str("IM Used"))
        } else if status_code == 300 {
            Some(String::from_str("Multiple Choices"))
        } else if status_code == 301 {
            Some(String::from_str("Moved permanently"))
        } else if status_code == 302 {
            Some(String::from_str("Found"))
        } else if status_code == 303 {
            Some(String::from_str("See Other"))
        } else if status_code == 304 {
            Some(String::from_str("Not Modified"))
        } else if status_code == 305 {
            Some(String::from_str("Use Proxy"))
        } else if status_code == 306 {
            Some(String::from_str("unused"))
        } else if status_code == 307 {
            Some(String::from_str("Temporary Redirect"))
        } else if status_code == 308 {
            Some(String::from_str("Permanent Redirect"))
        } else if status_code == 400 {
            Some(String::from_str("Bad Request"))
        } else if status_code == 401 {
            Some(String::from_str("Unauthorized"))
        } else if status_code == 402 {
            Some(String::from_str("Payment Required"))
        } else if status_code == 403 {
            Some(String::from_str("Forbidden"))
        } else if status_code == 404 {
            Some(String::from_str("Not Found"))
        } else if status_code == 405 {
            Some(String::from_str("Method Not Allowed"))
        } else if status_code == 406 {
            Some(String::from_str("Not Acceptable"))
        } else if status_code == 407 {
            Some(String::from_str("Proxy Authentication Required"))
        } else if status_code == 408 {
            Some(String::from_str("Request Timeout"))
        } else if status_code == 409 {
            Some(String::from_str("Conflict"))
        } else if status_code == 410 {
            Some(String::from_str("Gone"))
        } else if status_code == 411 {
            Some(String::from_str("Length Required"))
        } else if status_code == 412 {
            Some(String::from_str("Precondition Failed"))
        } else if status_code == 413 {
            Some(String::from_str("Payload Too Large"))
        } else if status_code == 414 {
            Some(String::from_str("URI Too Long"))
        } else if status_code == 415 {
            Some(String::from_str("Unsupported Media Type"))
        } else if status_code == 416 {
            Some(String::from_str("Range Not Satisfiable"))
        } else if status_code == 417 {
            Some(String::from_str("Expectation Failed"))
        } else if status_code == 418 {
            Some(String::from_str("I',m a teapot"))
        } else if status_code == 421 {
            Some(String::from_str("Misdirected Request"))
        } else if status_code == 422 {
            Some(String::from_str("Unprocessable Content"))
        } else if status_code == 423 {
            Some(String::from_str("Locked"))
        } else if status_code == 424 {
            Some(String::from_str("Failed Dependency"))
        } else if status_code == 425 {
            Some(String::from_str("Too Early"))
        } else if status_code == 426 {
            Some(String::from_str("Upgrade Required"))
        } else if status_code == 428 {
            Some(String::from_str("Precondition Required"))
        } else if status_code == 429 {
            Some(String::from_str("Too Many Requests"))
        } else if status_code == 431 {
            Some(String::from_str("Request Header Fields Too Large"))
        } else if status_code == 451 {
            Some(String::from_str("Unavailable For Legal Reasons"))
        } else if status_code == 500 {
            Some(String::from_str("Internal Server Error"))
        } else if status_code == 501 {
            Some(String::from_str("Not Implemented"))
        } else if status_code == 502 {
            Some(String::from_str("Bad Gateway"))
        } else if status_code == 503 {
            Some(String::from_str("Service Unavailable"))
        } else if status_code == 504 {
            Some(String::from_str("Gateway Timeout"))
        } else if status_code == 505 {
            Some(String::from_str("HTTP Version Not Supported"))
        } else if status_code == 506 {
            Some(String::from_str("Variant Also Negotiates"))
        } else if status_code == 507 {
            Some(String::from_str("Insufficient Storage"))
        } else if status_code == 508 {
            Some(String::from_str("Loop Detected"))
        } else if status_code == 510 {
            Some(String::from_str("Not Extended"))
        } else if status_code == 511 {
            Some(String::from_str("Network Authentication Required"))
        } else {
            None
        }
    }
}

impl Status {
    /// The numeric code of this status.
    pub fn code(&self) -> (r: usize)
        ensures
            r == status_code_spec(*self),
    {
        match self {
            Status::Continue => 100,
            Status::SwitchingProtocols => 101,
            Status::Processing => 102,
            Status::EarlyHints => 103,
            Status::Okay => 200,
            Status::Created => 201,
            Status::Accepted => 202,
            Status::NonAuthoritativeInformation => 203,
            Status::NoContent => 204,
            Status::ResetContent => 205,
            Status::PartialContent => 206,
            Status::MultiStatus => 207,
            Status::AlreadyReported => 208,
            Status::ImUsed => 226,
            Status::MultipleChoices => 300,
            Status::MovedPermanently => 301,
            Status::Found => 302,
            Status::SeeOther => 303,
            Status::NotModified => 304,
            Status::UseProxy => 305,
            Status::UnUsed => 306,
            Status::TemporaryRedirect => 307,
            Status::PermanentRedirect => 308,
            Status::BadRequest => 400,
            Status::UnAuthorized => 401,
            Status::PaymentRequired => 402,
            Status::Forbidden => 403,
            Status::NotFound => 404,
            Status::MethodNotAllowed => 405,
            Status::NotAcceptable => 406,
            Status::ProxyAuthenticationRequired => 407,
            Status::RequestTimeout => 408,
            Status::Conflict => 409,
            Status::Gone => 410,
            Status::LengthRequired => 411,
            Status::PreconditionFailed => 412,
            Status::PayloadTooLarge => 413,
            Status::UriTooLong => 414,
            Status::UnsupportedMediaType => 415,
            Status::RangeNotSatisfiable => 416,
            Status::ExpectationFailed => 417,
            Status::ImaTeaPot => 418,
            Status::MisRedirectRequest => 421,
            Status::UnprocessableContent => 422,
            Status::Locked => 423,
            Status::FailedDependency => 424,
            Status::TooEarly => 425,
            Status::UpgradeRequired => 426,
            Status::PreconditionRequired => 428,
            Status::TooManyRequests => 429,
            Status::RequestHeaderFieldsTooLarge => 431,
            Status::UnavailableForLegalReasons => 451,
            Status::InternalServerError => 500,
            Status::NotImplemented => 501,
            Status::BadGateway => 502,
            Status::ServiceUnavailable => 503,
            Status::GatewayTimeout => 504,
            Status::HttpVersionNotSupported => 505,
            Status::VariantAlsoNegotiates => 506,
            Status::InsufficientStorage => 507,
            Status::LoopDetected => 508,
            Status::NotExtended => 510,
            Status::NetworkAuthenticationRequired => 511,
        }
    }
}

/// Anything that can serve as a numeric status: a named `Status` or a bare
/// code.
pub trait StatusCode: Sized {
    spec fn as_code(&self) -> int;

    fn to_usize(&self) -> (r: usize)
        ensures
            r == self.as_code(),
    ;
}

impl StatusCode for Status {
    open spec fn as_code(&self) -> int {
        status_code_spec(*self)
    }

    fn to_usize(&self) -> (r: usize) {
        self.code()
    }
}

impl StatusCode for usize {
    open spec fn as_code(&self) -> int {
        *self as int
    }

    fn to_usize(&self) -> (r: usize) {
        *self
    }
}

} // verus!
