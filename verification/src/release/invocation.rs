//! The command line of the release tooling.
use vstd::prelude::*;

use crate::release::error::{XtaskError, XtaskErrorView};
use crate::release::version::{parse_request, VersionRequest, VersionRequestView};
use crate::text::{chars_eq_str, chars_of};

verus! {

/// A fully parsed command line invocation.
#[derive(Debug, PartialEq, Eq)]
pub enum Invocation {
    /// Prepare a release: bump the manifest, graduate the changelog, verify,
    /// and open a pull request.
    PrepareRelease {
        /// The requested next version.
        request: VersionRequest,
        /// Whether to skip the network side effects, the push and the pull
        /// request.
        is_dry_run: bool,
    },
    /// Print the release notes body for an already released version.
    PrintReleaseNotes {
        /// The version whose release notes body to print.
        version: String,
    },
    /// Check that a pushed release tag may be published, and print its
    /// version.
    VerifyReleaseTag {
        /// The tag as pushed, `vX.Y.Z`.
        tag: String,
    },
}

/// The mathematical content of an [`Invocation`].
pub ghost enum InvocationView {
    PrepareRelease { request: VersionRequestView, is_dry_run: bool },
    PrintReleaseNotes { version: Seq<char> },
    VerifyReleaseTag { tag: Seq<char> },
}

impl View for Invocation {
    type V = InvocationView;

    open spec fn view(&self) -> InvocationView {
        match self {
            Invocation::PrepareRelease { request, is_dry_run } => InvocationView::PrepareRelease {
                request: request@,
                is_dry_run: *is_dry_run,
            },
            Invocation::PrintReleaseNotes { version } => InvocationView::PrintReleaseNotes {
                version: version@,
            },
            Invocation::VerifyReleaseTag { tag } => InvocationView::VerifyReleaseTag { tag: tag@ },
        }
    }
}

/// The usage text listing every subcommand.
pub open spec fn usage_text() -> Seq<char> {
    "Usage:\n  cargo xtask release-prep <patch|minor|major|x.y.z> [--dry-run]\n  cargo xtask release-notes <version>\n  cargo xtask release-verify <vX.Y.Z>"@
}

/// The invocation that the arguments (the program name excluded) denote, or
/// the error they earn: an unknown command, a missing or extra argument, or
/// an unknown flag is a usage error, and a bad version request is reported
/// as such before any flag is looked at.
pub open spec fn invocation_of(args: Seq<Seq<char>>) -> Result<InvocationView, XtaskErrorView> {
    let usage = Err(XtaskErrorView::Usage(usage_text()));
    if args.len() == 0 {
        usage
    } else if args[0] == "release-prep"@ {
        if args.len() < 2 {
            usage
        } else {
            match parse_request(args[1]) {
                None => Err(XtaskErrorView::InvalidVersion { input: args[1] }),
                Some(request) => if forall|i: int| 2 <= i < args.len() ==> args[i] == "--dry-run"@ {
                    Ok(InvocationView::PrepareRelease { request, is_dry_run: args.len() > 2 })
                } else {
                    usage
                },
            }
        }
    } else if args[0] == "release-notes"@ {
        if args.len() == 2 {
            Ok(InvocationView::PrintReleaseNotes { version: args[1] })
        } else {
            usage
        }
    } else if args[0] == "release-verify"@ {
        if args.len() == 2 {
            Ok(InvocationView::VerifyReleaseTag { tag: args[1] })
        } else {
            usage
        }
    } else {
        usage
    }
}

/// The texts of a list of strings.
pub open spec fn texts(v: Seq<String>) -> Seq<Seq<char>> {
    v.map_values(|s: String| s@)
}

fn usage() -> (e: XtaskError)
    ensures
        e@ == XtaskErrorView::Usage(usage_text()),
{
    XtaskError::Usage(
        "Usage:\n  cargo xtask release-prep <patch|minor|major|x.y.z> [--dry-run]\n  cargo xtask release-notes <version>\n  cargo xtask release-verify <vX.Y.Z>".to_owned(),
    )
}

fn same_text(argument: &String, literal: &str) -> (b: bool)
    ensures
        b == (argument@ == literal@),
{
    let chars = chars_of(argument.as_str());
    chars_eq_str(chars.as_slice(), literal)
}

/// Parses the process command line arguments, excluding the program name,
/// into an [`Invocation`].
pub fn parse_invocation(arguments: &[String]) -> (r: Result<Invocation, XtaskError>)
    ensures
        match (r, invocation_of(texts(arguments@))) {
            (Ok(i), Ok(v)) => i@ == v,
            (Err(e), Err(v)) => e@ == v,
            _ => false,
        },
{
    let ghost args = texts(arguments@);
    if arguments.len() == 0 {
        return Err(usage());
    }
    assert(args[0] == arguments@[0]@);
    if same_text(&arguments[0], "release-prep") {
        if arguments.len() < 2 {
            return Err(usage());
        }
        assert(args[1] == arguments@[1]@);
        let request = match VersionRequest::parse(arguments[1].as_str()) {
            Ok(q) => q,
            Err(e) => {
                return Err(e);
            },
        };
        let mut i: usize = 2;
        while i < arguments.len()
            invariant
                2 <= i <= arguments.len(),
                args == texts(arguments@),
                args[0] == "release-prep"@,
                parse_request(args[1]) == Some(request@),
                forall|k: int| 2 <= k < i ==> args[k] == "--dry-run"@,
            decreases arguments.len() - i,
        {
            assert(args[i as int] == arguments@[i as int]@);
            if !same_text(&arguments[i], "--dry-run") {
                return Err(usage());
            }
            i = i + 1;
        }
        Ok(Invocation::PrepareRelease { request, is_dry_run: arguments.len() > 2 })
    } else if same_text(&arguments[0], "release-notes") {
        if arguments.len() != 2 {
            return Err(usage());
        }
        assert(args[1] == arguments@[1]@);
        Ok(Invocation::PrintReleaseNotes { version: arguments[1].clone() })
    } else if same_text(&arguments[0], "release-verify") {
        if arguments.len() != 2 {
            return Err(usage());
        }
        assert(args[1] == arguments@[1]@);
        Ok(Invocation::VerifyReleaseTag { tag: arguments[1].clone() })
    } else {
        Err(usage())
    }
}

} // verus!
