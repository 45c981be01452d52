//! What holds of every locator that is made or refused.
use crate::client_id::checked_client_id;
use crate::locator::{
    new_locator, normal_authority, normal_remote_path, remote_path_refusal, url_locator,
};
use crate::text::{decimal, lower, split};
use vstd::prelude::*;

verus! {

/// A piece of a path that does not name anything below it.
pub open spec fn leads_away(piece: Seq<char>) -> bool {
    piece == ""@ || piece == "."@ || piece == ".."@
}

/// A remote path is refused exactly where it is empty or has a piece that is empty, `.`
/// or `..`, so that no repository is placed outside the root.
pub proof fn paths_that_lead_away_are_refused(path: Seq<char>)
    ensures
        remote_path_refusal(path) is None <==> path.len() > 0 && forall|i: int|
            0 <= i < split(path, '/').len() ==> !leads_away(#[trigger] split(path, '/')[i]),
{
    assert(crate::locator::has_unsafe_component(path) <==> exists|i: int|
        0 <= i < split(path, '/').len() && leads_away(#[trigger] split(path, '/')[i])) by {
        if crate::locator::has_unsafe_component(path) {
            let i = choose|i: int|
                0 <= i < split(path, '/').len() && crate::locator::unsafe_component(
                    #[trigger] split(path, '/')[i],
                );
            assert(leads_away(split(path, '/')[i]));
        }
        if exists|i: int| 0 <= i < split(path, '/').len() && leads_away(#[trigger] split(path, '/')[i]) {
            let i = choose|i: int|
                0 <= i < split(path, '/').len() && leads_away(#[trigger] split(path, '/')[i]);
            assert(crate::locator::unsafe_component(split(path, '/')[i]));
        }
    }
}

/// A locator is made exactly where its authority names a host and its remote path is
/// not refused, both as they are kept, and is made of these two.
pub proof fn locators_are_made_of_sound_parts(authority: Seq<char>, path: Seq<char>)
    ensures
        ({
            let a = normal_authority(authority);
            let p = normal_remote_path(path);
            let made = new_locator(authority, path);
            &&& made is Ok <==> a.len() > 0 && !a.contains('/') && remote_path_refusal(p) is None
            &&& made is Ok ==> made->Ok_0.authority == a && made->Ok_0.remote_path == p
        }),
{
}

/// The locator of a URL has its host, in small letters, its port where it has one, and
/// its path; a file that names no host is on this one, and any other URL needs one.
pub proof fn urls_give_host_port_and_path(
    input: Seq<char>,
    scheme: Seq<char>,
    host: Seq<char>,
    port: u16,
    path: Seq<char>,
)
    ensures
        url_locator(input, Some((scheme, Some(host), None, path))) == new_locator(
            lower(host),
            path,
        ),
        url_locator(input, Some((scheme, Some(host), Some(port), path))) == new_locator(
            lower(host) + ":"@ + decimal(port as nat),
            path,
        ),
        scheme == "file"@ ==> url_locator(input, Some((scheme, None, None, path))) == new_locator(
            lower("localhost"@),
            path,
        ),
        scheme != "file"@ ==> url_locator(input, Some((scheme, None, None, path))) is Err,
        url_locator(input, None) is Err,
{
}

/// A client identifier is taken exactly where it has the form of a UUID, and is taken
/// as it is.
pub proof fn client_ids_are_uuids(value: Seq<char>)
    ensures
        checked_client_id(value) is Ok <==> value.len() == 36 && forall|i: int|
            0 <= i < 36 ==> if i == 8 || i == 13 || i == 18 || i == 23 {
                #[trigger] value[i] == '-'
            } else {
                ('0' <= value[i] && value[i] <= '9') || ('a' <= value[i] && value[i] <= 'f') || ('A'
                    <= value[i] && value[i] <= 'F')
            },
        checked_client_id(value) is Ok ==> checked_client_id(value)->Ok_0 == value,
{
}

} // verus!
