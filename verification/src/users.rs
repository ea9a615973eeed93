use vstd::prelude::*;

verus! {

/// A user or a group is not known.
#[derive(Debug, PartialEq, Eq, Clone, Copy, Structural)]
pub enum Error {
    DUNNOLOL,
}

/// The ids to drop privileges to: both of them, when both the user and
/// the group were found.
pub fn get_ids(user: Result<u32, Error>, group: Result<u32, Error>) -> (r: Result<(u32, u32), Error>)
    ensures
        r == match (user, group) {
            (Ok(uid), Ok(gid)) => Ok::<(u32, u32), Error>((uid, gid)),
            _ => Err(Error::DUNNOLOL),
        },
{
    match (user, group) {
        (Ok(uid), Ok(gid)) => Ok((uid, gid)),
        (_, _) => Err(Error::DUNNOLOL),
    }
}

} // verus!
