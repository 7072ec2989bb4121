//! What a guest may do with the objects of its host.

use vstd::prelude::*;

use crate::text;
use crate::text::{concat3, same};

verus! {

/// What may be done in one namespace.
#[derive(Debug)]
pub struct PaddockGrant {
    pub namespace: String,
    pub read: bool,
    pub write: bool,
    pub delete: bool,
    pub list: bool,
}

/// What a guest wants to do in a namespace.
#[derive(Debug, Clone, Copy, PartialEq, Eq, Structural)]
pub enum StoreAccess {
    Read,
    Write,
    Delete,
    List,
}

impl StoreAccess {
    /// What the access is called.
    pub open spec fn spelled(&self) -> Seq<char> {
        match *self {
            StoreAccess::Read => "read"@,
            StoreAccess::Write => "write"@,
            StoreAccess::Delete => "delete"@,
            StoreAccess::List => "list"@,
        }
    }

    /// What the access is called.
    pub fn name(&self) -> (name: &'static str)
        ensures
            name@ == self.spelled(),
    {
        match self {
            StoreAccess::Read => "read",
            StoreAccess::Write => "write",
            StoreAccess::Delete => "delete",
            StoreAccess::List => "list",
        }
    }
}

/// Whether a grant allows an access to a namespace.
pub open spec fn grant_allows(grant: PaddockGrant, namespace: Seq<char>, access: StoreAccess) -> bool {
    grant.namespace@ == namespace && match access {
        StoreAccess::Read => grant.read,
        StoreAccess::Write => grant.write,
        StoreAccess::Delete => grant.delete,
        StoreAccess::List => grant.list,
    }
}

/// Whether one of several grants allows an access to a namespace.
pub open spec fn granted(
    grants: Seq<PaddockGrant>,
    namespace: Seq<char>,
    access: StoreAccess,
) -> bool {
    exists|i: int| 0 <= i < grants.len() && grant_allows(#[trigger] grants[i], namespace, access)
}

impl PaddockGrant {
    /// Everything may be done in a namespace.
    pub fn full(namespace: String) -> (grant: PaddockGrant)
        ensures
            grant.namespace == namespace,
            grant.read && grant.write && grant.delete && grant.list,
    {
        PaddockGrant { namespace, read: true, write: true, delete: true, list: true }
    }

    /// Whether the grant allows an access to a namespace.
    pub fn allows(&self, namespace: &str, access: StoreAccess) -> (allowed: bool)
        ensures
            allowed == grant_allows(*self, namespace@, access),
    {
        same(self.namespace.as_str(), namespace) && match access {
            StoreAccess::Read => self.read,
            StoreAccess::Write => self.write,
            StoreAccess::Delete => self.delete,
            StoreAccess::List => self.list,
        }
    }
}

impl Clone for PaddockGrant {
    fn clone(&self) -> (copy: Self)
        ensures
            copy == *self,
    {
        PaddockGrant {
            namespace: self.namespace.clone(),
            read: self.read,
            write: self.write,
            delete: self.delete,
            list: self.list,
        }
    }
}

/// Whether one of several grants allows an access to a namespace.
pub fn paddock_granted(grants: &Vec<PaddockGrant>, namespace: &str, access: StoreAccess) -> (allowed:
    bool)
    ensures
        allowed == granted(grants@, namespace@, access),
{
    let count = grants.len();
    let mut i: usize = 0;
    while i < count
        invariant
            i <= count,
            count == grants@.len(),
            forall|k: int|
                0 <= k < i ==> !grant_allows(#[trigger] grants@[k], namespace@, access),
        decreases count - i,
    {
        if grants[i].allows(namespace, access) {
            return true;
        }
        i += 1;
    }
    false
}

/// Why an operation on objects fails.
#[derive(Debug)]
pub enum PaddockError {
    Denied(String),
    Unavailable(String),
    Conflict(String),
}

/// Why an operation is not even tried: the namespace or the key is refused, no
/// grant allows the access, or the host has no objects.
pub open spec fn access_problem(
    grants: Seq<PaddockGrant>,
    access: StoreAccess,
    namespace: Result<String, String>,
    key: Option<Result<String, String>>,
    configured: bool,
) -> Option<PaddockProblem> {
    match (namespace, key) {
        (Err(error), _) => Some(PaddockProblem::Unavailable(error@)),
        (Ok(_), Some(Err(error))) => Some(PaddockProblem::Unavailable(error@)),
        (Ok(namespace), _) => if !granted(grants, namespace@, access) {
            Some(
                PaddockProblem::Denied(
                    access.spelled() + " access denied for namespace "@ + namespace@,
                ),
            )
        } else if !configured {
            Some(PaddockProblem::Unavailable("Paddock capability is not configured"@))
        } else {
            None
        },
    }
}

/// Why an operation is not even tried, over texts.
pub enum PaddockProblem {
    Denied(Seq<char>),
    Unavailable(Seq<char>),
}

/// Checks an operation before it is tried. A namespace and a key come as the
/// host has read them, or with what it says against them.
pub fn authorize(
    grants: &Vec<PaddockGrant>,
    access: StoreAccess,
    namespace: Result<String, String>,
    key: Option<Result<String, String>>,
    configured: bool,
) -> (checked: Result<(String, Option<String>), PaddockError>)
    ensures
        match access_problem(grants@, access, namespace, key, configured) {
            Some(PaddockProblem::Denied(message)) => checked matches Err(PaddockError::Denied(told))
                && told@ == message,
            Some(PaddockProblem::Unavailable(message)) => checked matches Err(
                PaddockError::Unavailable(told),
            ) && told@ == message,
            None => checked matches Ok((read, read_key)) && namespace matches Ok(namespace) && read
                == namespace && match key {
                Some(Ok(key)) => read_key == Some(key),
                _ => read_key is None,
            },
        },
{
    let namespace = match namespace {
        Ok(namespace) => namespace,
        Err(error) => {
            return Err(PaddockError::Unavailable(error));
        },
    };
    let key = match key {
        Some(Ok(key)) => Some(key),
        Some(Err(error)) => {
            return Err(PaddockError::Unavailable(error));
        },
        None => None,
    };
    if !paddock_granted(grants, namespace.as_str(), access) {
        return Err(
            PaddockError::Denied(
                concat3(access.name(), " access denied for namespace ", namespace.as_str()),
            ),
        );
    }
    if !configured {
        return Err(PaddockError::Unavailable("Paddock capability is not configured".to_owned()));
    }
    Ok((namespace, key))
}

/// Nothing is tried in a namespace that no grant names, whatever is wanted.
pub proof fn law_unnamed_namespaces_are_denied(
    grants: Seq<PaddockGrant>,
    access: StoreAccess,
    namespace: String,
    configured: bool,
)
    requires
        forall|i: int| 0 <= i < grants.len() ==> (#[trigger] grants[i]).namespace@ != namespace@,
    ensures
        access_problem(grants, access, Ok(namespace), None, configured) matches Some(
            PaddockProblem::Denied(_),
        ),
{
}

/// A writer that is open until it is committed or given up.
pub struct PaddockWriterState<W> {
    writer: Option<W>,
}

impl<W> PaddockWriterState<W> {
    /// The writer, while it is open.
    pub closed spec fn open_writer(&self) -> Option<W> {
        self.writer
    }

    /// A writer that was just opened.
    pub fn new(writer: W) -> (state: Self)
        ensures
            state.open_writer() == Some(writer),
    {
        PaddockWriterState { writer: Some(writer) }
    }

    /// The writer, to write with. A finalized writer is a conflict.
    pub fn writing(&mut self) -> (writer: Result<&mut W, PaddockError>)
        ensures
            match (old(self).open_writer(), writer) {
                (Some(open), Ok(writer)) => *writer == open && final(self).open_writer() == Some(
                    *final(writer),
                ),
                (None, Err(PaddockError::Conflict(told))) => told@ == "writer finalized"@
                    && *final(self) == *old(self),
                _ => false,
            },
    {
        match &mut self.writer {
            Some(writer) => Ok(writer),
            None => Err(PaddockError::Conflict("writer finalized".to_owned())),
        }
    }

    /// Takes the writer to commit it, which finalizes it. A finalized writer is
    /// a conflict.
    pub fn commit(&mut self) -> (writer: Result<W, PaddockError>)
        ensures
            final(self).open_writer() is None,
            match (old(self).open_writer(), writer) {
                (Some(open), Ok(writer)) => writer == open,
                (None, Err(PaddockError::Conflict(told))) => told@ == "writer finalized"@,
                _ => false,
            },
    {
        match self.writer.take() {
            Some(writer) => Ok(writer),
            None => Err(PaddockError::Conflict("writer finalized".to_owned())),
        }
    }

    /// Takes the writer to give it up, which finalizes it. There is nothing to
    /// give up of a finalized writer.
    pub fn abort(&mut self) -> (writer: Option<W>)
        ensures
            final(self).open_writer() is None,
            writer == old(self).open_writer(),
    {
        self.writer.take()
    }
}

/// An operation is tried exactly where the namespace and the key, if there is one,
/// could be read, some grant for that very namespace allows that very access, and
/// the host has objects. What is tried is then what was asked. It is denied
/// exactly where both could be read and no grant allows it.
pub proof fn law_operations_need_a_grant(
    grants: Vec<PaddockGrant>,
    access: StoreAccess,
    namespace: Result<String, String>,
    key: Option<Result<String, String>>,
    configured: bool,
    checked: Result<(String, Option<String>), PaddockError>,
)
    requires
        call_ensures(authorize, (&grants, access, namespace, key, configured), checked),
    ensures
        ({
            let readable = namespace is Ok && (key matches Some(read) ==> read is Ok);
            let allowed = exists|i: int|
                0 <= i < grants@.len() && (#[trigger] grants@[i]).namespace@ == namespace->Ok_0@ && (
                (access is Read && grants@[i].read) || (access is Write && grants@[i].write) || (
                access is Delete && grants@[i].delete) || (access is List && grants@[i].list));
            &&& (checked is Ok <==> readable && allowed && configured)
            &&& (checked matches Err(PaddockError::Denied(_)) <==> readable && !allowed)
            &&& !(checked matches Err(PaddockError::Conflict(_)))
        }),
        checked matches Ok((read, read_key)) ==> {
            &&& namespace == Ok::<String, String>(read)
            &&& (key is None ==> read_key is None)
            &&& (key matches Some(key) ==> read_key is Some && key == Ok::<String, String>(
                read_key->0,
            ))
        },
        checked matches Err(PaddockError::Denied(told)) ==> told@ == match access {
            StoreAccess::Read => "read"@,
            StoreAccess::Write => "write"@,
            StoreAccess::Delete => "delete"@,
            StoreAccess::List => "list"@,
        } + " access denied for namespace "@ + namespace->Ok_0@,
        namespace matches Err(error) ==> {
            &&& checked is Err
            &&& checked->Err_0 is Unavailable
            &&& checked->Err_0->Unavailable_0@ == error@
        },
{
    if let Ok(named) = namespace {
        if granted(grants@, named@, access) {
            let i = choose|i: int|
                0 <= i < grants@.len() && grant_allows(#[trigger] grants@[i], named@, access);
            assert(grants@[i].namespace@ == named@);
        } else {
            assert forall|i: int|
                0 <= i < grants@.len() && (#[trigger] grants@[i]).namespace@ == named@ implies !((
            access is Read && grants@[i].read) || (access is Write && grants@[i].write) || (
            access is Delete && grants@[i].delete) || (access is List && grants@[i].list)) by {
                assert(!grant_allows(grants@[i], named@, access));
            }
        }
    }
}

/// A further grant never takes anything away: what some grants allow, they allow
/// in any company.
pub proof fn law_grants_add_up(
    grants: Seq<PaddockGrant>,
    others: Seq<PaddockGrant>,
    namespace: Seq<char>,
    access: StoreAccess,
)
    ensures
        granted(grants + others, namespace, access) <==> granted(grants, namespace, access)
            || granted(others, namespace, access),
{
    let all = grants + others;
    if granted(all, namespace, access) {
        let i = choose|i: int| 0 <= i < all.len() && grant_allows(#[trigger] all[i], namespace, access);
        if i < grants.len() {
            assert(grants[i] == all[i]);
        } else {
            assert(others[i - grants.len()] == all[i]);
        }
    }
    if granted(grants, namespace, access) {
        let i = choose|i: int|
            0 <= i < grants.len() && grant_allows(#[trigger] grants[i], namespace, access);
        assert(all[i] == grants[i]);
    }
    if granted(others, namespace, access) {
        let i = choose|i: int|
            0 <= i < others.len() && grant_allows(#[trigger] others[i], namespace, access);
        assert(all[i + grants.len()] == others[i]);
    }
}

/// Each access has a name of its own.
pub proof fn law_accesses_are_named(access: StoreAccess, name: &'static str)
    requires
        call_ensures(StoreAccess::name, (&access,), name),
    ensures
        name@ == "read"@ <==> access is Read,
        name@ == "write"@ <==> access is Write,
        name@ == "delete"@ <==> access is Delete,
        name@ == "list"@ <==> access is List,
{
    reveal_strlit("read");
    reveal_strlit("write");
    reveal_strlit("delete");
    reveal_strlit("list");
    assert("read"@.len() == 4 && "read"@[0] == 'r');
    assert("list"@.len() == 4 && "list"@[0] == 'l');
    assert("write"@.len() == 5);
    assert("delete"@.len() == 6);
}

/// A writer can be committed once: whoever commits an open one has it, and after
/// that, or after it was given up, there is nothing left to commit.
pub proof fn law_writers_are_committed_once<W>(
    state: &mut PaddockWriterState<W>,
    later: &mut PaddockWriterState<W>,
    given_up: &mut PaddockWriterState<W>,
    after: &mut PaddockWriterState<W>,
    first: Result<W, PaddockError>,
    second: Result<W, PaddockError>,
    dropped: Option<W>,
    third: Result<W, PaddockError>,
)
    requires
        call_ensures(PaddockWriterState::<W>::commit, (state,), first),
        *final(state) == *old(later),
        call_ensures(PaddockWriterState::<W>::commit, (later,), second),
        call_ensures(PaddockWriterState::<W>::abort, (given_up,), dropped),
        *final(given_up) == *old(after),
        call_ensures(PaddockWriterState::<W>::commit, (after,), third),
    ensures
        first is Ok <==> old(state).open_writer() is Some,
        first matches Ok(writer) ==> old(state).open_writer() == Some(writer),
        second is Err && second->Err_0 is Conflict,
        dropped == old(given_up).open_writer(),
        third is Err && third->Err_0 is Conflict,
{
}

/// A full grant allows everything in its namespace, and nothing in another.
pub proof fn law_full_grants_allow_everything(
    namespace: String,
    grant: PaddockGrant,
    wanted: &str,
    access: StoreAccess,
    allowed: bool,
)
    requires
        call_ensures(PaddockGrant::full, (namespace,), grant),
        call_ensures(PaddockGrant::allows, (&grant, wanted, access), allowed),
    ensures
        allowed <==> wanted@ == namespace@,
{
}

} // verus!
