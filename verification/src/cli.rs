//! What the command line says of itself.

use vstd::prelude::*;
use crate::assemble::texts;

verus! {

/// The banner of the command line.
#[derive(Debug, Clone, Copy)]
pub struct Info();

/// The name in the banner.
pub const INFO_TITLE: &'static str = "\n OHOS-RS ";

/// The first line under the name.
pub const INFO_PURPOSE: &'static str =
    "\n \n This command is used for building native modules of Harmony in the ohos-rs project.";

/// The second line under the name.
pub const INFO_SCOPE: &'static str =
    "\n It provides a range of capabilities including project initialization, building, CI/CD, etc.";

impl Info {
    /// The name in the banner, which is shown in bold and in colour.
    pub fn title(&self) -> (title: String)
        ensures
            title@ == INFO_TITLE@,
    {
        INFO_TITLE.to_owned()
    }

    /// The lines under the name, in order.
    pub fn description(&self) -> (lines: Vec<String>)
        ensures
            texts(lines@) == seq![INFO_PURPOSE@, INFO_SCOPE@],
    {
        let mut lines: Vec<String> = Vec::new();
        lines.push(INFO_PURPOSE.to_owned());
        lines.push(INFO_SCOPE.to_owned());
        assert(texts(lines@) =~= seq![INFO_PURPOSE@, INFO_SCOPE@]);
        lines
    }
}

} // verus!
