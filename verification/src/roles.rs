//! Roles of accounts and the authorization decisions that rest on them.

use vstd::prelude::*;
use crate::error::Error;

verus! {

/// A role that an account can hold.
#[derive(Clone, Copy, Debug, PartialEq, Eq, Hash, Structural)]
pub enum RoleEnum {
    Admin,
    Editor,
    ReadOnly,
}

/// The id under which a role is stored.
pub open spec fn spec_role_id(role: RoleEnum) -> i32 {
    match role {
        RoleEnum::Admin => 3,
        RoleEnum::Editor => 2,
        RoleEnum::ReadOnly => 1,
    }
}

/// The role stored under an id, if any.
pub open spec fn spec_role_of_id(id: i32) -> Option<RoleEnum> {
    if id == 1 {
        Some(RoleEnum::ReadOnly)
    } else if id == 2 {
        Some(RoleEnum::Editor)
    } else if id == 3 {
        Some(RoleEnum::Admin)
    } else {
        None
    }
}

impl RoleEnum {
    /// The id under which the role is stored.
    pub fn as_role_id(self) -> (id: i32)
        ensures
            id == spec_role_id(self),
    {
        match self {
            RoleEnum::Admin => 3,
            RoleEnum::Editor => 2,
            RoleEnum::ReadOnly => 1,
        }
    }

    /// The role's name as it is displayed.
    pub fn name(&self) -> (name: &'static str)
        ensures
            name@ == (match self {
                RoleEnum::Admin => "Admin"@,
                RoleEnum::Editor => "Editor"@,
                RoleEnum::ReadOnly => "ReadOnly"@,
            }),
    {
        match self {
            RoleEnum::Admin => "Admin",
            RoleEnum::Editor => "Editor",
            RoleEnum::ReadOnly => "ReadOnly",
        }
    }
}

/// A row that grants an account a role.
#[derive(Clone, Copy, Debug, PartialEq, Eq, Structural)]
pub struct AccountRole {
    pub id: i32,
    pub account_id: i32,
    pub role_id: i32,
}

impl AccountRole {
    /// The role that the row grants, if its role id is known.
    pub fn as_role_enum(account_role: AccountRole) -> (role: Option<RoleEnum>)
        ensures
            role == spec_role_of_id(account_role.role_id),
    {
        match account_role.role_id {
            1 => Some(RoleEnum::ReadOnly),
            2 => Some(RoleEnum::Editor),
            3 => Some(RoleEnum::Admin),
            _ => None,
        }
    }
}

/// Storing a role and reading it back gives the same role, and a known id is
/// the stored id of the role read from it.
pub proof fn lemma_role_id_round_trip(role: RoleEnum, id: i32)
    ensures
        spec_role_of_id(spec_role_id(role)) == Some(role),
        spec_role_of_id(id) == Some(role) ==> spec_role_id(role) == id,
{
}

/// The roles that may edit: editors and admins.
pub fn allowed_editor_roles() -> (roles: Vec<RoleEnum>)
    ensures
        roles@ == seq![RoleEnum::Editor, RoleEnum::Admin],
{
    let mut roles = Vec::new();
    roles.push(RoleEnum::Editor);
    roles.push(RoleEnum::Admin);
    roles
}

/// The roles that may administer: admins.
pub fn allowed_admin_roles() -> (roles: Vec<RoleEnum>)
    ensures
        roles@ == seq![RoleEnum::Admin],
{
    let mut roles = Vec::new();
    roles.push(RoleEnum::Admin);
    roles
}

/// What an authorization check needs next, or what it concluded.
#[derive(Debug)]
pub enum AuthStep {
    /// The account's roles must be loaded (`AuthAccount::set_roles`).
    NeedRoles,
    /// The account must be loaded (`AuthAccount::set_account_verified`).
    NeedAccount,
    /// The decision is made.
    Decided(Result<bool, Error>),
}

/// The account behind a request, with what has been loaded of it so far.
#[derive(Debug)]
pub struct AuthAccount {
    pub id: i32,
    roles: Option<Vec<RoleEnum>>,
    verified: Option<bool>,
}

/// Whether some role of `roles` is in `allowed`.
pub open spec fn spec_has_intersection(roles: Seq<RoleEnum>, allowed: Seq<RoleEnum>) -> bool {
    exists|i: int| 0 <= i < roles.len() && allowed.contains(#[trigger] roles[i])
}

/// The roles granted by the rows whose role ids are known, in row order.
pub open spec fn spec_roles_of(rows: Seq<AccountRole>) -> Seq<RoleEnum>
    decreases rows.len(),
{
    if rows.len() == 0 {
        Seq::empty()
    } else {
        let rest = spec_roles_of(rows.drop_last());
        match spec_role_of_id(rows.last().role_id) {
            Some(role) => rest.push(role),
            None => rest,
        }
    }
}

impl AuthAccount {
    /// The account's id.
    pub closed spec fn spec_id(&self) -> i32 {
        self.id
    }

    /// The loaded roles, if they have been loaded.
    pub closed spec fn spec_roles(&self) -> Option<Seq<RoleEnum>> {
        match &self.roles {
            Some(roles) => Some(roles@),
            None => None,
        }
    }

    /// Whether the loaded account is verified, if it has been loaded.
    pub closed spec fn spec_verified(&self) -> Option<bool> {
        self.verified
    }

    /// An account of which nothing has been loaded yet.
    pub fn new(id: i32) -> (a: AuthAccount)
        ensures
            a.spec_id() == id,
            a.spec_roles() is None,
            a.spec_verified() is None,
    {
        AuthAccount { id, roles: None, verified: None }
    }

    /// Whether the roles have been loaded.
    pub fn has_roles(&self) -> (b: bool)
        ensures
            b == self.spec_roles() is Some,
    {
        self.roles.is_some()
    }

    /// Records the account's role rows (once; later rows are ignored, as the
    /// roles are only loaded while none are known).
    pub fn set_roles(&mut self, account_roles: &Vec<AccountRole>)
        ensures
            final(self).spec_id() == old(self).spec_id(),
            final(self).spec_verified() == old(self).spec_verified(),
            final(self).spec_roles() == (match old(self).spec_roles() {
                Some(r) => Some(r),
                None => Some(spec_roles_of(account_roles@)),
            }),
    {
        if self.roles.is_some() {
            return;
        }
        let mut roles: Vec<RoleEnum> = Vec::new();
        let mut i: usize = 0;
        while i < account_roles.len()
            invariant
                i <= account_roles@.len(),
                roles@ == spec_roles_of(account_roles@.take(i as int)),
            decreases account_roles@.len() - i,
        {
            proof {
                assert(account_roles@.take(i + 1).drop_last() =~= account_roles@.take(i as int));
            }
            if let Some(role) = AccountRole::as_role_enum(account_roles[i]) {
                roles.push(role);
            }
            i = i + 1;
        }
        proof {
            assert(account_roles@.take(i as int) =~= account_roles@);
        }
        self.roles = Some(roles);
    }

    /// Records whether the account is verified (once, as the account is only
    /// loaded while it is not known).
    pub fn set_account_verified(&mut self, verified: bool)
        ensures
            final(self).spec_id() == old(self).spec_id(),
            final(self).spec_roles() == old(self).spec_roles(),
            final(self).spec_verified() == (match old(self).spec_verified() {
                Some(v) => Some(v),
                None => Some(verified),
            }),
    {
        if self.verified.is_none() {
            self.verified = Some(verified);
        }
    }

    /// Whether some role of `roles` is among `allowed_roles`.
    pub fn has_intersection(roles: &Vec<RoleEnum>, allowed_roles: &Vec<RoleEnum>) -> (b: bool)
        ensures
            b == spec_has_intersection(roles@, allowed_roles@),
    {
        let mut i: usize = 0;
        while i < roles.len()
            invariant
                i <= roles@.len(),
                forall|k: int| 0 <= k < i ==> !allowed_roles@.contains(#[trigger] roles@[k]),
            decreases roles@.len() - i,
        {
            let role = roles[i];
            let mut j: usize = 0;
            while j < allowed_roles.len()
                invariant
                    j <= allowed_roles@.len(),
                    i < roles@.len(),
                    role == roles@[i as int],
                    forall|k: int| 0 <= k < j ==> allowed_roles@[k] != role,
                decreases allowed_roles@.len() - j,
            {
                if allowed_roles[j] == role {
                    assert(allowed_roles@.contains(roles@[i as int]));
                    return true;
                }
                j = j + 1;
            }
            i = i + 1;
        }
        false
    }

    /// The next step of checking that the account holds one of
    /// `allowed_roles` and is verified: load the roles, then (only if one of
    /// them is allowed) the account; refuse as unauthorized otherwise.
    pub fn allowed(&self, allowed_roles: &Vec<RoleEnum>) -> (step: AuthStep)
        ensures
            match self.spec_roles() {
                None => step is NeedRoles,
                Some(roles) => if !spec_has_intersection(roles, allowed_roles@) {
                    step == AuthStep::Decided(Err(Error::Unauthorized))
                } else {
                    match self.spec_verified() {
                        None => step is NeedAccount,
                        Some(true) => step == AuthStep::Decided(Ok(true)),
                        Some(false) => step == AuthStep::Decided(Err(Error::Unauthorized)),
                    }
                },
            },
    {
        match &self.roles {
            None => AuthStep::NeedRoles,
            Some(roles) => {
                if !AuthAccount::has_intersection(roles, allowed_roles) {
                    AuthStep::Decided(Err(Error::Unauthorized))
                } else {
                    match self.verified {
                        None => AuthStep::NeedAccount,
                        Some(true) => AuthStep::Decided(Ok(true)),
                        Some(false) => AuthStep::Decided(Err(Error::Unauthorized)),
                    }
                }
            },
        }
    }

    /// The last step of an edit check for a non-admin editor: the item's
    /// owner must be this account.
    pub fn owns(&self, owner_id: Option<i32>) -> (r: Result<bool, Error>)
        ensures
            r == (if owner_id == Some(self.spec_id()) {
                Ok::<bool, Error>(true)
            } else {
                Err(Error::Unauthorized)
            }),
    {
        if let Some(owner_id) = owner_id {
            if owner_id == self.id {
                return Ok(true);
            }
        }
        Err(Error::Unauthorized)
    }
}

/// What an edit check needs next, or what it concluded.
#[derive(Debug)]
pub enum EditStep {
    /// The account's roles must be loaded (`AuthAccount::set_roles`).
    NeedRoles,
    /// The account must be loaded (`AuthAccount::set_account_verified`).
    NeedAccount,
    /// The owner of the item must be looked up.
    NeedOwner,
    /// The decision is made.
    Decided(Result<bool, Error>),
}

/// What an edit check concludes once all it needs is known: a verified
/// admin may edit; otherwise the account must be a verified editor (an
/// unauthorized error if not) and own the item.
pub open spec fn spec_can_edit(
    roles: Seq<RoleEnum>,
    verified: bool,
    owner: Option<i32>,
    id: i32,
) -> EditStep {
    if spec_has_intersection(roles, seq![RoleEnum::Admin]) && verified {
        EditStep::Decided(Ok(true))
    } else if !(spec_has_intersection(roles, seq![RoleEnum::Editor, RoleEnum::Admin]) && verified) {
        EditStep::Decided(Err(Error::Unauthorized))
    } else if owner == Some(id) {
        EditStep::Decided(Ok(true))
    } else {
        EditStep::Decided(Err(Error::Unauthorized))
    }
}

impl AuthAccount {
    /// The next step of checking that the account may edit an item:
    /// `owner` is `None` while the item's owner has not been looked up, and
    /// `Some(o)` with the owner's id (`o` is `None` for an item without one).
    /// Roles are loaded first; the account only where a role could allow;
    /// the owner only for a verified editor who is no verified admin.
    pub fn can_edit(&self, owner: Option<Option<i32>>) -> (step: EditStep)
        ensures
            match self.spec_roles() {
                None => step is NeedRoles,
                Some(roles) => if !spec_has_intersection(roles, seq![RoleEnum::Editor, RoleEnum::Admin]) {
                    step == EditStep::Decided(Err(Error::Unauthorized))
                } else {
                    match self.spec_verified() {
                        None => step is NeedAccount,
                        Some(verified) => if !(spec_has_intersection(roles, seq![RoleEnum::Admin]) && verified)
                            && verified && owner.is_none() {
                            step is NeedOwner
                        } else {
                            step == spec_can_edit(roles, verified, match owner {
                                Some(o) => o,
                                None => None,
                            }, self.spec_id())
                        },
                    }
                },
            },
    {
        let admins = allowed_admin_roles();
        let editors = allowed_editor_roles();
        match &self.roles {
            None => EditStep::NeedRoles,
            Some(roles) => {
                if !AuthAccount::has_intersection(roles, &editors) {
                    proof {
                        if spec_has_intersection(roles@, seq![RoleEnum::Admin]) {
                            let i = choose|i: int| 0 <= i < roles@.len() && seq![RoleEnum::Admin].contains(#[trigger] roles@[i]);
                            assert(seq![RoleEnum::Editor, RoleEnum::Admin][1] == roles@[i]);
                        }
                    }
                    return EditStep::Decided(Err(Error::Unauthorized));
                }
                let verified = match self.verified {
                    None => return EditStep::NeedAccount,
                    Some(v) => v,
                };
                if verified && AuthAccount::has_intersection(roles, &admins) {
                    return EditStep::Decided(Ok(true));
                }
                if !verified {
                    return EditStep::Decided(Err(Error::Unauthorized));
                }
                match owner {
                    None => EditStep::NeedOwner,
                    Some(owner_id) => EditStep::Decided(self.owns(owner_id)),
                }
            },
        }
    }
}

} // verus!
