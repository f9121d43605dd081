//! Administration: who may change whose role.

use crate::api::auth::is_admin;
use crate::api::{refusal, refuse, refused, Refusal, RefusalView};
use crate::text::{opt_str, push_text, same_text};
use vstd::prelude::*;

verus! {

/// Request body for updating a user's role
#[derive(Debug)]
pub struct UpdateRoleRequest {
    pub role: String,
}

/// Whether a role exists.
pub open spec fn known_role(role: Seq<char>) -> bool {
    role == "admin"@ || role == "user"@ || role == "viewer"@
}

/// What is told of a role that does not exist.
pub open spec fn unknown_role_text(role: Seq<char>) -> Seq<char> {
    "Invalid role '"@ + role + "'. Must be 'admin', 'user', or 'viewer'"@
}

/// Checks that a role exists.
pub fn check_role(role: &str) -> (r: Result<(), Refusal>)
    ensures
        if known_role(role@) {
            r is Ok
        } else {
            refused(r, 400, unknown_role_text(role@))
        },
{
    if same_text(role, "admin") || same_text(role, "user") || same_text(role, "viewer") {
        return Ok(());
    }
    let mut text = "Invalid role '".to_owned();
    push_text(&mut text, role);
    push_text(&mut text, "'. Must be 'admin', 'user', or 'viewer'");
    Err(Refusal { status: 400, error: text })
}

/// Whether the role of the user matters for a change to a role: only where it takes the
/// role of an administrator away.
pub fn needs_target(role: &str) -> (r: bool)
    ensures
        r == (role@ != "admin"@),
{
    !same_text(role, "admin")
}

/// Whether the number of administrators matters for a change that takes the role of an
/// administrator away: only where the user is one.
pub fn needs_count(target_role: Option<&str>) -> (r: bool)
    ensures
        r == is_admin(opt_str(target_role)),
{
    match target_role {
        Some(current) => same_text(current, "admin"),
        None => false,
    }
}

/// What is wrong with a change of a role, if anything: the role has to exist; the user has
/// to exist, unless the change makes them an administrator; and the last administrator
/// stays one.
pub open spec fn role_fault(
    role: Seq<char>,
    target_role: Option<Seq<char>>,
    admin_count: i64,
) -> Option<RefusalView> {
    if !known_role(role) {
        Some(refusal(400, unknown_role_text(role)))
    } else if role == "admin"@ {
        None
    } else {
        match target_role {
            None => Some(refusal(404, "User not found"@)),
            Some(current) => if current == "admin"@ && admin_count <= 1 {
                Some(
                    refusal(
                        400,
                        "Cannot remove the last admin. Promote another user to admin first."@,
                    ),
                )
            } else {
                None
            },
        }
    }
}

/// Decides a change of a role, from the role of the user, if the user exists, and the
/// number of administrators.
pub fn decide_role_change(role: &str, target_role: Option<&str>, admin_count: i64) -> (r: Result<
    (),
    Refusal,
>)
    ensures
        match r {
            Ok(_) => role_fault(role@, opt_str(target_role), admin_count) is None,
            Err(e) => role_fault(role@, opt_str(target_role), admin_count) == Some(e@),
        },
{
    match check_role(role) {
        Err(e) => return Err(e),
        Ok(_) => {},
    }
    if !needs_target(role) {
        return Ok(());
    }
    match target_role {
        None => Err(refuse(404, "User not found")),
        Some(current) => {
            if same_text(current, "admin") && admin_count <= 1 {
                Err(
                    refuse(
                        400,
                        "Cannot remove the last admin. Promote another user to admin first.",
                    ),
                )
            } else {
                Ok(())
            }
        },
    }
}

/// The role of a user, if there is such a user.
pub open spec fn role_of(roles: Map<i64, Seq<char>>, user: i64) -> Option<Seq<char>> {
    if roles.dom().contains(user) {
        Some(roles[user])
    } else {
        None
    }
}

/// The administrators among users with their roles.
pub open spec fn admins(roles: Map<i64, Seq<char>>) -> Set<i64> {
    roles.dom().filter(|user: i64| roles[user] == "admin"@)
}

/// Whether a request to give a user a role is accepted: the one who asks is an
/// administrator, and nothing is wrong with the change.
pub open spec fn accepted(
    roles: Map<i64, Seq<char>>,
    caller: i64,
    user: i64,
    role: Seq<char>,
) -> bool {
    is_admin(role_of(roles, caller)) && role_fault(
        role,
        role_of(roles, user),
        admins(roles).len() as i64,
    ) is None
}

/// The roles after such a request: the user, if there is one, has the new role where the
/// request is accepted, and nothing has changed where it is not.
pub open spec fn roles_after(
    roles: Map<i64, Seq<char>>,
    caller: i64,
    user: i64,
    role: Seq<char>,
) -> Map<i64, Seq<char>> {
    if accepted(roles, caller, user, role) && roles.dom().contains(user) {
        roles.insert(user, role)
    } else {
        roles
    }
}

/// The number of administrators does not matter for a user who is none.
pub proof fn law_count_matters_for_admins(
    role: Seq<char>,
    target_role: Option<Seq<char>>,
    count: i64,
    other_count: i64,
)
    requires
        !is_admin(target_role),
    ensures
        role_fault(role, target_role, count) == role_fault(role, target_role, other_count),
{
}

/// There is always an administrator: whatever role is asked for whom, and by whom, at least
/// one remains where there was one.
pub proof fn law_an_admin_remains(
    roles: Map<i64, Seq<char>>,
    caller: i64,
    user: i64,
    role: Seq<char>,
)
    requires
        roles.dom().finite(),
        1 <= admins(roles).len() <= i64::MAX,
    ensures
        admins(roles_after(roles, caller, user, role)).len() >= 1,
{
    let before = admins(roles);
    let after = admins(roles_after(roles, caller, user, role));
    roles.dom().lemma_len_filter(|user: i64| roles[user] == "admin"@);
    if accepted(roles, caller, user, role) && roles.dom().contains(user) {
        if role == "admin"@ {
            assert(after =~= before.insert(user));
        } else {
            assert(after =~= before.remove(user));
        }
    }
}

/// A request changes the role of one user at most, and to the role that was asked for. One
/// that is not accepted changes nothing: where the one who asks is no administrator, where
/// the role does not exist, and where it would take the role of the only administrator away.
pub proof fn law_only_the_asked_role_changes(
    roles: Map<i64, Seq<char>>,
    caller: i64,
    user: i64,
    role: Seq<char>,
)
    requires
        roles.dom().finite(),
        admins(roles).len() <= i64::MAX,
    ensures
        ({
            let after = roles_after(roles, caller, user, role);
            &&& after.dom() == roles.dom()
            &&& forall|other: i64|
                other != user && roles.dom().contains(other) ==> #[trigger] after[other]
                    == roles[other]
            &&& accepted(roles, caller, user, role) && roles.dom().contains(user) ==> after[user]
                == role
            &&& !accepted(roles, caller, user, role) ==> after == roles
            &&& !is_admin(role_of(roles, caller)) ==> !accepted(roles, caller, user, role)
            &&& !known_role(role) ==> !accepted(roles, caller, user, role)
            &&& admins(roles) == set![user] && role != "admin"@ ==> !accepted(
                roles,
                caller,
                user,
                role,
            )
        }),
{
    let after = roles_after(roles, caller, user, role);
    assert(after.dom() =~= roles.dom());
    if admins(roles) == set![user] {
        assert(set![user].contains(user));
        assert(set![user].len() == 1);
    }
}

/// Tells that a role was changed.
pub fn role_changed_text(role: &str) -> (text: String)
    ensures
        text@ == "User role updated to '"@ + role@ + "'"@,
{
    let mut text = "User role updated to '".to_owned();
    push_text(&mut text, role);
    push_text(&mut text, "'");
    text
}

/// A change of a role is accepted exactly where the role exists and either makes the user an
/// administrator, or the user exists and is not the only administrator. An unknown role and
/// the last administrator are the fault of the one who asks, and a user who does not exist is
/// not found.
pub proof fn law_role_changes_need(
    role: Seq<char>,
    target_role: Option<Seq<char>>,
    admin_count: i64,
)
    ensures
        ({
            let fault = role_fault(role, target_role, admin_count);
            let known = role == "admin"@ || role == "user"@ || role == "viewer"@;
            &&& fault is None <==> known && (role == "admin"@ || (target_role is Some && (
            target_role != Some("admin"@) || admin_count >= 2)))
            &&& !known ==> (fault matches Some(r) && r.status == 400 && r.error
                == "Invalid role '"@ + role + "'. Must be 'admin', 'user', or 'viewer'"@)
            &&& known && role != "admin"@ && target_role is None ==> (fault matches Some(r)
                && r.status == 404)
            &&& known && role != "admin"@ && target_role == Some("admin"@) && admin_count <= 1 ==> (
            fault matches Some(r) && r.status == 400 && r.error
                == "Cannot remove the last admin. Promote another user to admin first."@)
        }),
{
}

} // verus!
