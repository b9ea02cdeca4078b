//! The automatic recovery copy: where it lives and when it is worth offering.
use vstd::prelude::*;

verus! {

/// The folder of the recovery copy, below the user's local data folder.
pub const RECOVERY_FOLDER: &'static str = "pulso/recovery";
/// The file name of the recovery copy.
pub const SNAPSHOT_NAME: &'static str = "autosave.pulso";

/// `name` placed inside the folder `base`, with one `/` between them; an empty
/// `base` leaves `name` as it is.
pub open spec fn joined(base: Seq<char>, name: Seq<char>) -> Seq<char> {
    if base.len() == 0 || base.last() == '/' {
        base + name
    } else {
        base + seq!['/'] + name
    }
}

/// Places the relative path `name` inside the folder `base`.
pub fn join_path(base: &str, name: &str) -> (r: String)
    ensures
        r@ == joined(base@, name@),
{
    let len = base.unicode_len();
    let mut r = String::from_str(base);
    if len > 0 && base.get_char(len - 1) != '/' {
        r.append("/");
        proof {
            reveal_strlit("/");
        }
    }
    r.append(name);
    proof {
        if len > 0 && base@.last() != '/' {
            assert(r@ =~= base@ + seq!['/'] + name@);
        }
    }
    r
}

/// The folder of the recovery copy: `pulso/recovery` inside the user's local data
/// folder where there is one, else inside the temporary folder.
pub fn directory(data_local: Option<&str>, temp: &str) -> (r: String)
    ensures
        r@ == joined(
            match data_local {
                Some(d) => d@,
                None => temp@,
            },
            "pulso/recovery"@,
        ),
{
    let base = match data_local {
        Some(d) => d,
        None => temp,
    };
    join_path(base, RECOVERY_FOLDER)
}

/// The path of the recovery copy inside the folder `directory`.
pub fn snapshot_path(directory: &str) -> (r: String)
    ensures
        r@ == joined(directory@, "autosave.pulso"@),
{
    join_path(directory, SNAPSHOT_NAME)
}

/// The recovery copy worth offering: the snapshot at `path`, when its file has a
/// modification time (`modified`, in nanoseconds from the Unix epoch, negative
/// before it) that is not later than now (`now`, likewise).
pub fn latest<P>(path: P, modified: Option<i128>, now: i128) -> (r: Option<P>)
    ensures
        r == (match modified {
            Some(t) => if t <= now { Some(path) } else { None },
            None => None,
        }),
{
    match modified {
        Some(t) => if t <= now {
            Some(path)
        } else {
            None
        },
        None => None,
    }
}

} // verus!
