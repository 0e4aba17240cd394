//! Errors raised while building or maintaining the index.

use crate::text;
use crate::text::push_decimal;
use vstd::prelude::*;
use vstd::string::*;

verus! {

/// Failures that can occur while reading a volume and constructing the index.
#[derive(Debug)]
pub enum IndexError {
    AccessDenied(String),
    Open { volume: String, code: u32 },
    Read { volume: String, offset: u64, code: u32 },
    NotNtfs(String),
    Malformed { volume: String, detail: String },
}

pub type IndexResult<T> = Result<T, IndexError>;

impl IndexError {
    /// What the error says to the user.
    pub open spec fn text(self) -> Seq<char> {
        match self {
            IndexError::AccessDenied(v) => "access denied opening "@ + v@
                + " \u{2014} run AllTheThings as Administrator"@,
            IndexError::Open { volume, code } => "failed to open volume "@ + volume@
                + ": OS error "@ + text::decimal(code as nat),
            IndexError::Read { volume, offset, code } => "I/O error reading "@ + volume@
                + " at offset "@ + text::decimal(offset as nat) + ": OS error "@ + text::decimal(
                code as nat,
            ),
            IndexError::NotNtfs(v) => v@ + " is not an NTFS volume"@,
            IndexError::Malformed { volume, detail } => "malformed MFT on "@ + volume@ + ": "@
                + detail@,
        }
    }

    /// What the error says to the user.
    pub fn message(&self) -> (r: String)
        ensures
            r@ == self.text(),
    {
        let mut out = String::new();
        match self {
            IndexError::AccessDenied(v) => {
                out.append("access denied opening ");
                out.append(v.as_str());
                out.append(" \u{2014} run AllTheThings as Administrator");
            },
            IndexError::Open { volume, code } => {
                out.append("failed to open volume ");
                out.append(volume.as_str());
                out.append(": OS error ");
                push_decimal(&mut out, *code as u64);
            },
            IndexError::Read { volume, offset, code } => {
                out.append("I/O error reading ");
                out.append(volume.as_str());
                out.append(" at offset ");
                push_decimal(&mut out, *offset);
                out.append(": OS error ");
                push_decimal(&mut out, *code as u64);
            },
            IndexError::NotNtfs(v) => {
                out.append(v.as_str());
                out.append(" is not an NTFS volume");
            },
            IndexError::Malformed { volume, detail } => {
                out.append("malformed MFT on ");
                out.append(volume.as_str());
                out.append(": ");
                out.append(detail.as_str());
            },
        }
        assert(out@ =~= self.text());
        out
    }
}

} // verus!
