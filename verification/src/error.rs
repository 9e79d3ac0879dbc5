use vstd::prelude::*;

verus! {

/// Single opaque error type of the library.
/// No variant categorization by design: callers match on `EidosError`, not on variants.
#[derive(Debug)]
pub enum EidosError {
    InvalidConfig(String),
    RenderFailed(String),
}

/// The human-readable text of an error, as the renderer prints it.
pub open spec fn error_message(e: EidosError) -> Seq<char> {
    match e {
        EidosError::InvalidConfig(msg) => "invalid configuration: "@ + msg@,
        EidosError::RenderFailed(msg) => "render failed: "@ + msg@,
    }
}

impl EidosError {
    /// The display text: `invalid configuration: <msg>` or `render failed: <msg>`.
    pub fn message(&self) -> (s: String)
        ensures
            s@ == error_message(*self),
    {
        match self {
            EidosError::InvalidConfig(msg) => {
                let mut s = String::from_str("invalid configuration: ");
                s.append(msg.as_str());
                s
            },
            EidosError::RenderFailed(msg) => {
                let mut s = String::from_str("render failed: ");
                s.append(msg.as_str());
                s
            },
        }
    }
}

} // verus!
