//! PrettyGet's core: the language-independent parser of winget's console tables, the
//! command lines and scripts the app hands to winget, schtasks, sc.exe and PowerShell, and
//! the decisions taken on what those programs answer.

pub mod text;
pub mod ansi;
pub mod decode;
pub mod table;
pub mod winget;
pub mod stream;
pub mod iac;
pub mod remote;
pub mod schedule;
pub mod system;
pub mod daemon;
pub mod json;
pub mod state_sync;
