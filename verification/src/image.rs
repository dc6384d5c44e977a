//! Command-line handling of the image builder, which creates bootable ISO
//! and disk images from a kernel and an initrd.
use vstd::prelude::*;
use crate::text::str_eq;

verus! {

/// Image kinds the builder produces.
#[derive(Clone, Copy, PartialEq, Eq, Structural, Debug)]
pub enum ImageKind {
    Iso,
    Disk,
}

/// What a command line asks for.
pub enum ImageCommand {
    /// No command was given: print the overall usage.
    Usage,
    /// The command is neither `iso` nor `disk`.
    Unknown(String),
    /// An image command with fewer than three operands: print its usage.
    KindUsage(ImageKind),
    /// Build an image of `kind` from `kernel` and `initrd` into `output`.
    Build { kind: ImageKind, kernel: String, initrd: String, output: String },
}

/// The image kind named by a command word.
pub open spec fn kind_named(s: Seq<char>) -> Option<ImageKind> {
    if s == "iso"@ {
        Some(ImageKind::Iso)
    } else if s == "disk"@ {
        Some(ImageKind::Disk)
    } else {
        None
    }
}

/// Interpret the command line `args` (program name first).
pub fn parse_image_args(args: &[String]) -> (r: ImageCommand)
    ensures
        args@.len() < 2 ==> r is Usage,
        args@.len() >= 2 && kind_named(args@[1]@) is None ==> (r matches ImageCommand::Unknown(c)
            && c@ == args@[1]@),
        args@.len() >= 2 && kind_named(args@[1]@) is Some && args@.len() < 5 ==> r
            == ImageCommand::KindUsage(kind_named(args@[1]@)->0),
        args@.len() >= 5 && kind_named(args@[1]@) is Some ==> (r matches ImageCommand::Build {
            kind,
            kernel,
            initrd,
            output,
        } && kind == kind_named(args@[1]@)->0 && kernel@ == args@[2]@ && initrd@ == args@[3]@
            && output@ == args@[4]@),
{
    if args.len() < 2 {
        return ImageCommand::Usage;
    }
    let cmd = args[1].as_str();
    let kind = if str_eq(cmd, "iso") {
        ImageKind::Iso
    } else if str_eq(cmd, "disk") {
        ImageKind::Disk
    } else {
        return ImageCommand::Unknown(args[1].clone());
    };
    if args.len() < 5 {
        return ImageCommand::KindUsage(kind);
    }
    ImageCommand::Build {
        kind,
        kernel: args[2].clone(),
        initrd: args[3].clone(),
        output: args[4].clone(),
    }
}

} // verus!
