//! The registration of the tool that runs commands.

use vstd::prelude::*;

use crate::manager::{
    ManagerView, ToolCategory, ToolInfo, ToolManager, ToolPlacement, ToolRisk,
};

verus! {

/// What is known of the tool that runs commands.
pub open spec fn exec_info() -> ToolInfo {
    ToolInfo {
        risk: ToolRisk::Destructive,
        category: ToolCategory::Exec,
        placement: ToolPlacement::Workspace,
        default_timeout_secs: 30,
    }
}

/// Registers the tool that runs commands.
pub fn register(mgr: &mut ToolManager)
    ensures
        final(mgr)@ == (ManagerView {
            tools: old(mgr)@.tools.insert("exec"@, exec_info()),
            ..old(mgr)@
        }),
{
    mgr.register_with_placement(
        "exec",
        ToolInfo {
            risk: ToolRisk::Destructive,
            category: ToolCategory::Exec,
            placement: ToolPlacement::Workspace,
            default_timeout_secs: 30,
        },
        ToolPlacement::Workspace,
    );
}

} // verus!
