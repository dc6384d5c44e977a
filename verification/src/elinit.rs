//! elinit, the first user process: starts the driver servers in order,
//! then the shell, then supervises them.
use vstd::prelude::*;

verus! {

/// Driver servers started at boot, in this order.
pub open spec fn driver_order_spec() -> Seq<Seq<char>> {
    seq!["serial"@, "keyboard"@, "framebuffer"@, "block"@, "fs"@]
}

/// The driver servers to start, in order: serial, keyboard, framebuffer,
/// block, fs.
pub fn driver_order() -> (r: Vec<&'static str>)
    ensures
        r@.len() == driver_order_spec().len(),
        forall|i: int| 0 <= i < r@.len() ==> #[trigger] r@[i]@ == driver_order_spec()[i],
{
    let mut v: Vec<&'static str> = Vec::new();
    v.push("serial");
    v.push("keyboard");
    v.push("framebuffer");
    v.push("block");
    v.push("fs");
    v
}

/// Start the driver server `name`.  Process creation is not available
/// yet, so nothing is started.
pub fn spawn_driver(_name: &str) {
}

/// Start the shell.  Process creation is not available yet, so nothing is
/// started.
pub fn spawn_shell() {
}

} // verus!
