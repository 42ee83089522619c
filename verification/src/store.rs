//! The single-writer store for projects, messages, settings and the
//! credential record, with the exact semantics of each operation stated
//! over a mathematical view of its tables.

use vstd::prelude::*;
use crate::types::CredentialRecord;
use crate::types::CredentialV;
use crate::types::Message;
use crate::types::MessageRecord;
use crate::types::MessageRecordV;
use crate::types::MessageV;
use crate::types::Project;
use crate::types::ProjectV;
use crate::types::ProjectWithMessages;
use crate::types::ProjectWithMessagesV;
use crate::types::SaveProjectRequest;
use crate::types::SaveProjectRequestV;
use crate::types::SettingRecord;
use crate::types::SettingV;
use crate::types::UserRecord;
use crate::types::UserV;
use crate::types::StoreError;
use crate::types::clone_opt_string;
use crate::seq_lemmas::lemma_filter_is_subset;
use crate::seq_lemmas::lemma_map_values_insert;
use crate::seq_lemmas::lemma_filter_push;
use crate::seq_lemmas::lemma_map_values_push;
use crate::seq_lemmas::lemma_subrange_all;
use crate::seq_lemmas::lemma_subrange_push;

verus! {

/// Holds of the message rows that belong to the project `id`.
pub open spec fn msg_of(id: Seq<char>) -> spec_fn(MessageRecordV) -> bool {
    |m: MessageRecordV| m.project_id == id
}

/// Holds of the message rows that belong to any other project.
pub open spec fn msg_not_of(id: Seq<char>) -> spec_fn(MessageRecordV) -> bool {
    |m: MessageRecordV| m.project_id != id
}

/// The view of a vector of message rows.
pub open spec fn msg_views(v: Seq<MessageRecord>) -> Seq<MessageRecordV> {
    v.map_values(|m: MessageRecord| m@)
}

/// The view of a vector of submitted messages.
pub open spec fn dto_views(v: Seq<Message>) -> Seq<MessageV> {
    v.map_values(|m: Message| m@)
}

/// The view of a vector of project rows.
pub open spec fn proj_views(v: Seq<Project>) -> Seq<ProjectV> {
    v.map_values(|p: Project| p@)
}

/// The message row stored for a submitted message.
pub open spec fn message_row(m: MessageV, pid: Seq<char>, now: u64) -> MessageRecordV {
    MessageRecordV {
        id: m.id,
        role: m.role,
        content: m.content,
        project_id: pid,
        created_at: now,
    }
}

/// The rows stored for a submitted message list: submission order is
/// preserved by giving the i-th row the timestamp `now + i`, so the rows
/// of one save carry strictly ascending creation times.
pub open spec fn new_rows(msgs: Seq<MessageV>, pid: Seq<char>, now: u64) -> Seq<MessageRecordV> {
    msgs.map(|i: int, m: MessageV| message_row(m, pid, (now + i) as u64))
}

/// Strictly ascending creation times within each project.
pub open spec fn asc_messages(msgs: Seq<MessageRecordV>) -> bool {
    forall|i: int, j: int|
        0 <= i < j < msgs.len()
            && (#[trigger] msgs[i]).project_id == (#[trigger] msgs[j]).project_id
            ==> msgs[i].created_at < msgs[j].created_at
}

/// A save whose request carried no identifier collided with an existing
/// project under the generated one: the insert must fail rather than
/// overwrite.
pub open spec fn generated_collision(s: StoreV, req: SaveProjectRequestV, gen: Seq<char>) -> bool {
    req.project_id is None && s.has_project(gen)
}

/// The submitted message a stored row came from.
pub open spec fn dto_of() -> spec_fn(MessageRecordV) -> MessageV {
    |m: MessageRecordV| MessageV { id: m.id, role: m.role, content: m.content }
}

/// The identifier a save resolves to: the requested one, or the generated one.
pub open spec fn resolved_id(req: SaveProjectRequestV, gen: Seq<char>) -> Seq<char> {
    match req.project_id {
        Some(id) => id,
        None => gen,
    }
}

/// The project row a save inserts for a new identifier.
pub open spec fn new_project_row(req: SaveProjectRequestV, rid: Seq<char>, now: u64) -> ProjectV {
    ProjectV {
        id: rid,
        name: req.name,
        description: None,
        project_type: req.project_type,
        active_agents: req.active_agents,
        current_code: req.current_code,
        visibility: "PRIVATE"@,
        user_id: local_user_id(),
        created_at: now,
        updated_at: now,
    }
}

/// The project row after a save updates an existing one: the mutable
/// fields are replaced, `updated_at` is refreshed, everything else is kept.
pub open spec fn updated_project_row(p: ProjectV, req: SaveProjectRequestV, now: u64) -> ProjectV {
    ProjectV {
        name: req.name,
        project_type: req.project_type,
        active_agents: req.active_agents,
        current_code: req.current_code,
        updated_at: now,
        ..p
    }
}

/// The store after a save: an insert or an update of the resolved project,
/// and in either case the project's stored messages are exactly the
/// submitted list, in submission order.
pub open spec fn save_project_model(
    s: StoreV,
    req: SaveProjectRequestV,
    gen: Seq<char>,
    now: u64,
) -> StoreV {
    let rid = resolved_id(req, gen);
    if s.has_project(rid) {
        StoreV {
            projects: s.projects.update(
                s.project_index(rid),
                updated_project_row(s.project_of(rid), req, now),
            ),
            messages: s.messages.filter(msg_not_of(rid)) + new_rows(req.messages, rid, now),
            ..s
        }
    } else {
        StoreV {
            projects: s.projects.push(new_project_row(req, rid, now)),
            messages: s.messages + new_rows(req.messages, rid, now),
            ..s
        }
    }
}

/// What `load_project` returns for an existing project: its row and its
/// stored messages, stripped back to submitted form, in stored order.
pub open spec fn load_project_model(s: StoreV, id: Seq<char>) -> ProjectWithMessagesV {
    ProjectWithMessagesV {
        project: s.project_of(id),
        messages: s.messages_of(id).map_values(dto_of()),
    }
}

/// The store after a delete: the project row is removed, and the
/// backend's cascade rule removes its messages with it.
pub open spec fn delete_project_model(s: StoreV, id: Seq<char>) -> StoreV {
    StoreV {
        projects: s.projects.remove(s.project_index(id)),
        messages: s.messages.filter(msg_not_of(id)),
        ..s
    }
}

/// Holds of project rows owned by the local user.
pub open spec fn local_of() -> spec_fn(ProjectV) -> bool {
    |p: ProjectV| p.user_id == local_user_id()
}

/// Sorted by `updated_at`, most recently touched first.
pub open spec fn sorted_desc(s: Seq<ProjectV>) -> bool {
    forall|i: int, j: int|
        0 <= i < j < s.len() ==> #[trigger] s[i].updated_at >= #[trigger] s[j].updated_at
}

/// The store: one value per table, plus the singleton credential row.
pub struct Store {
    pub users: Vec<UserRecord>,
    pub projects: Vec<Project>,
    pub messages: Vec<MessageRecord>,
    pub settings: Vec<SettingRecord>,
    pub credential: Option<CredentialRecord>,
}

#[verifier::ext_equal]
pub ghost struct StoreV {
    pub users: Seq<UserV>,
    pub projects: Seq<ProjectV>,
    pub messages: Seq<MessageRecordV>,
    pub settings: Seq<SettingV>,
    pub credential: Option<CredentialV>,
}

impl View for Store {
    type V = StoreV;

    open spec fn view(&self) -> StoreV {
        StoreV {
            users: self.users@.map_values(|u: UserRecord| u@),
            projects: self.projects@.map_values(|p: Project| p@),
            messages: self.messages@.map_values(|m: MessageRecord| m@),
            settings: self.settings@.map_values(|s: SettingRecord| s@),
            credential: match self.credential {
                Some(c) => Some(c@),
                None => None,
            },
        }
    }
}

/// The identifier of the single fixed local user that owns every project.
pub open spec fn local_user_id() -> Seq<char> {
    "local-user"@
}

impl StoreV {
    /// Some project row carries this identifier.
    pub open spec fn has_project(self, id: Seq<char>) -> bool {
        exists|i: int| 0 <= i < self.projects.len() && #[trigger] self.projects[i].id == id
    }

    /// The index of the project row with this identifier.
    pub open spec fn project_index(self, id: Seq<char>) -> int {
        choose|i: int| 0 <= i < self.projects.len() && #[trigger] self.projects[i].id == id
    }

    /// The project row with this identifier.
    pub open spec fn project_of(self, id: Seq<char>) -> ProjectV {
        self.projects[self.project_index(id)]
    }

    /// The stored messages of the project, in stored order.
    pub open spec fn messages_of(self, id: Seq<char>) -> Seq<MessageRecordV> {
        self.messages.filter(msg_of(id))
    }

    /// Well-formedness: project identifiers and setting keys are unique,
    /// every message row belongs to an existing project, and within each
    /// project the message rows carry strictly ascending creation times.
    pub open spec fn wf(self) -> bool {
        &&& forall|i: int, j: int|
            0 <= i < j < self.projects.len()
                ==> (#[trigger] self.projects[i].id) != (#[trigger] self.projects[j].id)
        &&& forall|i: int, j: int|
            0 <= i < j < self.settings.len()
                ==> (#[trigger] self.settings[i].key) != (#[trigger] self.settings[j].key)
        &&& forall|i: int|
            0 <= i < self.messages.len()
                ==> self.has_project(#[trigger] self.messages[i].project_id)
        &&& asc_messages(self.messages)
    }
}

/// The store after the schema and default-user migration: tables are kept
/// as they are, and the fixed local user is inserted if no user exists.
pub open spec fn migrate_model(s: StoreV, u: UserV) -> StoreV {
    if s.users.len() == 0 {
        StoreV { users: seq![u], ..s }
    } else {
        s
    }
}

/// The default local user, with the default plan and token quota.
pub open spec fn local_user_model() -> UserV {
    UserV {
        id: "local-user"@,
        name: "Local User"@,
        email: "local@vibing2.app"@,
        plan: "FREE"@,
        token_balance: 10000,
    }
}

impl Store {
    /// A store with no rows at all, as an empty backing file starts.
    pub fn new() -> (s: Store)
        ensures
            s@.users.len() == 0,
            s@.projects.len() == 0,
            s@.messages.len() == 0,
            s@.settings.len() == 0,
            s@.credential is None,
            s@.wf(),
    {
        let s = Store {
            users: Vec::new(),
            projects: Vec::new(),
            messages: Vec::new(),
            settings: Vec::new(),
            credential: None,
        };
        proof {
            assert(s@.users =~= Seq::<UserV>::empty());
            assert(s@.projects =~= Seq::<ProjectV>::empty());
            assert(s@.messages =~= Seq::<MessageRecordV>::empty());
            assert(s@.settings =~= Seq::<SettingV>::empty());
        }
        s
    }

    /// The idempotent startup migration: creates nothing that exists, and
    /// inserts exactly one default local user when no user row is present.
    pub fn migrate(&mut self)
        ensures
            final(self)@ == migrate_model(old(self)@, local_user_model()),
            old(self)@.wf() ==> final(self)@.wf(),
    {
        if self.users.len() == 0 {
            let u = UserRecord {
                id: String::from_str("local-user"),
                name: String::from_str("Local User"),
                email: String::from_str("local@vibing2.app"),
                plan: String::from_str("FREE"),
                token_balance: 10000,
            };
            self.users.push(u);
            proof {
                assert(self@.users =~= seq![local_user_model()]);
                assert(self@ =~= migrate_model(old(self)@, local_user_model()));
            }
        } else {
            proof {
                assert(self@ =~= migrate_model(old(self)@, local_user_model()));
            }
        }
    }

    /// The index of the project row carrying `id`, if any.
    fn find_project(&self, id: &String) -> (r: Option<usize>)
        requires
            self@.wf(),
        ensures
            match r {
                Some(i) => self@.has_project(id@) && i == self@.project_index(id@)
                    && 0 <= i < self@.projects.len(),
                None => !self@.has_project(id@),
            },
    {
        let n = self.projects.len();
        let mut i: usize = 0;
        while i < n
            invariant
                self@.wf(),
                n == self@.projects.len(),
                i <= n,
                forall|j: int| 0 <= j < i ==> (#[trigger] self@.projects[j].id) != id@,
            decreases n - i,
        {
            if self.projects[i].id == *id {
                proof {
                    assert(self@.projects[i as int].id == id@);
                    let w = self@.project_index(id@);
                    if w != i as int {
                        if w < i as int {
                            assert(self@.projects[w].id != self@.projects[i as int].id);
                        } else {
                            assert(self@.projects[i as int].id != self@.projects[w].id);
                        }
                    }
                }
                return Some(i);
            }
            i = i + 1;
        }
        None
    }

    /// Whether some project row carries `id`, on a store that need not be
    /// well-formed.
    fn has_project_row(&self, id: &String) -> (r: bool)
        ensures
            r == self@.has_project(id@),
    {
        let n = self.projects.len();
        let mut i: usize = 0;
        while i < n
            invariant
                n == self@.projects.len(),
                i <= n,
                forall|a: int| 0 <= a < i ==> (#[trigger] self@.projects[a].id) != id@,
            decreases n - i,
        {
            if self.projects[i].id == *id {
                proof {
                    assert(self@.projects[i as int].id == id@);
                }
                return true;
            }
            i = i + 1;
        }
        proof {
            if self@.has_project(id@) {
                let w = choose|w: int|
                    0 <= w < self@.projects.len() && #[trigger] self@.projects[w].id == id@;
                assert(self@.projects[w].id != id@);
            }
        }
        false
    }

    /// Decides the store invariant, for data loaded from a backing file
    /// that another writer may have touched: unique project identifiers,
    /// unique setting keys, every message row under an existing project,
    /// and strictly ascending creation times within each project.
    pub fn well_formed(&self) -> (r: bool)
        ensures
            r == self@.wf(),
    {
        let np = self.projects.len();
        let mut i: usize = 0;
        while i < np
            invariant
                np == self@.projects.len(),
                i <= np,
                forall|a: int, b: int|
                    0 <= a < b < np && a < i
                        ==> (#[trigger] self@.projects[a].id) != (#[trigger] self@.projects[b].id),
            decreases np - i,
        {
            let mut j: usize = i + 1;
            while j < np
                invariant
                    np == self@.projects.len(),
                    i < np,
                    i < j <= np,
                    forall|b: int|
                        i < b < j ==> (#[trigger] self@.projects[b].id) != self@.projects[i as int].id,
                decreases np - j,
            {
                if self.projects[j].id == self.projects[i].id {
                    proof {
                        assert(self@.projects[i as int].id == self@.projects[j as int].id);
                    }
                    return false;
                }
                j = j + 1;
            }
            i = i + 1;
        }
        let ns = self.settings.len();
        let mut i: usize = 0;
        while i < ns
            invariant
                ns == self@.settings.len(),
                i <= ns,
                forall|a: int, b: int|
                    0 <= a < b < ns && a < i
                        ==> (#[trigger] self@.settings[a].key) != (#[trigger] self@.settings[b].key),
            decreases ns - i,
        {
            let mut j: usize = i + 1;
            while j < ns
                invariant
                    ns == self@.settings.len(),
                    i < ns,
                    i < j <= ns,
                    forall|b: int|
                        i < b < j ==> (#[trigger] self@.settings[b].key) != self@.settings[i as int].key,
                decreases ns - j,
            {
                if self.settings[j].key == self.settings[i].key {
                    proof {
                        assert(self@.settings[i as int].key == self@.settings[j as int].key);
                    }
                    return false;
                }
                j = j + 1;
            }
            i = i + 1;
        }
        let nm = self.messages.len();
        let mut k: usize = 0;
        while k < nm
            invariant
                nm == self@.messages.len(),
                k <= nm,
                forall|a: int|
                    0 <= a < k ==> self@.has_project((#[trigger] self@.messages[a]).project_id),
            decreases nm - k,
        {
            if !self.has_project_row(&self.messages[k].project_id) {
                proof {
                    assert(!self@.has_project(self@.messages[k as int].project_id));
                }
                return false;
            }
            k = k + 1;
        }
        let mut a: usize = 0;
        while a < nm
            invariant
                nm == self@.messages.len(),
                a <= nm,
                forall|x: int, y: int|
                    0 <= x < y < nm && x < a
                        && (#[trigger] self@.messages[x]).project_id
                            == (#[trigger] self@.messages[y]).project_id
                        ==> self@.messages[x].created_at < self@.messages[y].created_at,
            decreases nm - a,
        {
            let mut b: usize = a + 1;
            while b < nm
                invariant
                    nm == self@.messages.len(),
                    a < nm,
                    a < b <= nm,
                    forall|y: int|
                        a < y < b && (#[trigger] self@.messages[y]).project_id
                            == self@.messages[a as int].project_id
                            ==> self@.messages[a as int].created_at < self@.messages[y].created_at,
                decreases nm - b,
            {
                if self.messages[b].project_id == self.messages[a].project_id
                    && self.messages[b].created_at <= self.messages[a].created_at {
                    proof {
                        assert(self@.messages[a as int].project_id
                            == self@.messages[b as int].project_id);
                        assert(!(self@.messages[a as int].created_at
                            < self@.messages[b as int].created_at));
                    }
                    return false;
                }
                b = b + 1;
            }
            a = a + 1;
        }
        proof {
            assert(asc_messages(self@.messages));
        }
        true
    }

    /// Deletes the project row carrying `project_id` together with all of
    /// its messages; reports `NotFound`, changing nothing, when no row
    /// carries it.
    pub fn delete_project(&mut self, project_id: &String) -> (r: Result<(), StoreError>)
        requires
            old(self)@.wf(),
        ensures
            final(self)@.wf(),
            old(self)@.has_project(project_id@) ==> {
                &&& r is Ok
                &&& final(self)@ == delete_project_model(old(self)@, project_id@)
            },
            !old(self)@.has_project(project_id@) ==> {
                &&& r matches Err(StoreError::NotFound)
                &&& final(self)@ == old(self)@
            },
    {
        let found = self.find_project(project_id);
        match found {
            None => Err(StoreError::NotFound),
            Some(i) => {
                self.projects.remove(i);
                let kept = copy_messages_except(&self.messages, project_id);
                self.messages = kept;
                proof {
                    let m0 = old(self)@;
                    let m1 = self@;
                    assert(m1.projects =~= m0.projects.remove(m0.project_index(project_id@)));
                    assert(m1 =~= delete_project_model(m0, project_id@));
                    lemma_wf_after_delete(m0, project_id@);
                }
                Ok(())
            }
        }
    }

    /// Saves a project at a caller-supplied timestamp, with a
    /// caller-supplied identifier for the case that none was requested.
    /// Inserts a new project or updates the one the request named, and
    /// replaces the project's stored messages with the submitted list, in
    /// submission order under ascending timestamps. A request without an
    /// identifier whose generated one collides with an existing project
    /// fails the insert rather than overwrite.
    pub fn save_project_at(
        &mut self,
        req: &SaveProjectRequest,
        generated_id: String,
        now: u64,
    ) -> (r: Result<String, StoreError>)
        requires
            old(self)@.wf(),
            now + req.messages@.len() <= u64::MAX,
        ensures
            final(self)@.wf(),
            generated_collision(old(self)@, req@, generated_id@) ==> {
                &&& r matches Err(StoreError::Conflict)
                &&& final(self)@ == old(self)@
            },
            !generated_collision(old(self)@, req@, generated_id@) ==> {
                &&& final(self)@ == save_project_model(old(self)@, req@, generated_id@, now)
                &&& r matches Ok(id) && id@ == resolved_id(req@, generated_id@)
            },
    {
        let ghost gen = generated_id@;
        let requested = req.project_id.is_some();
        let rid: String = match &req.project_id {
            Some(id) => id.clone(),
            None => generated_id,
        };
        proof {
            assert(rid@ == resolved_id(req@, gen));
        }
        let found = self.find_project(&rid);
        if found.is_some() && !requested {
            return Err(StoreError::Conflict);
        }
        let r = match found {
            Some(i) => {
                let p = &self.projects[i];
                let updated = Project {
                    id: p.id.clone(),
                    name: req.name.clone(),
                    description: clone_opt_string(&p.description),
                    project_type: req.project_type.clone(),
                    active_agents: req.active_agents.clone(),
                    current_code: clone_opt_string(&req.current_code),
                    visibility: p.visibility.clone(),
                    user_id: p.user_id.clone(),
                    created_at: p.created_at,
                    updated_at: now,
                };
                proof {
                    assert(updated@ =~= updated_project_row(
                        old(self)@.project_of(rid@), req@, now));
                }
                self.projects.set(i, updated);
                proof {
                    assert(self@.projects =~= old(self)@.projects.update(
                        old(self)@.project_index(rid@),
                        updated_project_row(old(self)@.project_of(rid@), req@, now),
                    ));
                }
                let mut kept = copy_messages_except(&self.messages, &rid);
                let mut rows = make_rows(&req.messages, &rid, now);
                kept.append(&mut rows);
                self.messages = kept;
                Ok(rid)
            }
            None => {
                let newp = Project {
                    id: rid.clone(),
                    name: req.name.clone(),
                    description: None,
                    project_type: req.project_type.clone(),
                    active_agents: req.active_agents.clone(),
                    current_code: clone_opt_string(&req.current_code),
                    visibility: String::from_str("PRIVATE"),
                    user_id: String::from_str("local-user"),
                    created_at: now,
                    updated_at: now,
                };
                proof {
                    assert(newp@ =~= new_project_row(req@, rid@, now));
                }
                self.projects.push(newp);
                proof {
                    assert(self@.projects =~= old(self)@.projects.push(
                        new_project_row(req@, rid@, now)));
                }
                let mut rows = make_rows(&req.messages, &rid, now);
                self.messages.append(&mut rows);
                Ok(rid)
            }
        };
        proof {
            assert(self@ =~= save_project_model(old(self)@, req@, gen, now));
            lemma_wf_after_save(old(self)@, req@, gen, now);
        }
        r
    }

    /// Saves a project at the current time: a request without an
    /// identifier creates a project under a fresh generated one — the
    /// prefix `"proj-"`, the decimal millisecond epoch, then six random
    /// lowercase-alphanumeric characters — and a request with one updates
    /// that project if it exists. Either way the project's stored
    /// messages become the submitted list. Only in the negligible case
    /// that the generated identifier already exists does the save fail,
    /// with `Conflict`, changing nothing rather than overwrite: on a
    /// store holding no identifier of the generated shape, success is
    /// guaranteed.
    pub fn save_project(&mut self, req: &SaveProjectRequest) -> (r: Result<String, StoreError>)
        requires
            old(self)@.wf(),
        ensures
            final(self)@.wf(),
            r matches Ok(id) ==> {
                &&& id@ == resolved_id(req@, id@)
                &&& (exists|now: u64|
                    final(self)@ == save_project_model(old(self)@, req@, id@, now))
                &&& (req@.project_id matches Some(p) ==> id@ == p)
                &&& (req@.project_id is None ==> {
                    &&& !old(self)@.has_project(id@)
                    &&& id@.len() > 11
                    &&& id@.subrange(0, 5) == "proj-"@
                    &&& (forall|i: int| 5 <= i < id@.len()
                        ==> crate::ids::is_lower_alnum(#[trigger] id@[i]))
                    &&& (exists|ts: u64, draws: Seq<u32>|
                        draws.len() == 6 && id@ == crate::ids::id_chars("proj"@, ts, draws))
                })
            },
            r matches Err(e) ==> {
                &&& e == StoreError::Conflict
                &&& req@.project_id is None
                &&& final(self)@ == old(self)@
                &&& (exists|ts: u64, draws: Seq<u32>| draws.len() == 6
                    && old(self)@.has_project(crate::ids::id_chars("proj"@, ts, draws)))
            },
            req@.project_id is Some ==> r is Ok,
    {
        let clock = crate::ids::current_millis();
        let margin = req.messages.len() as u64;
        let now = if clock > u64::MAX - margin {
            u64::MAX - margin
        } else {
            clock
        };
        let gen = crate::ids::generate_id("proj");
        proof {
            reveal_strlit("proj");
            reveal_strlit("proj-");
            assert(gen@.subrange(0, 5) =~= "proj-"@) by {
                assert(gen@.subrange(0, 4) == "proj"@);
                assert(gen@[0] == "proj"@[0] && gen@[1] == "proj"@[1]
                    && gen@[2] == "proj"@[2] && gen@[3] == "proj"@[3]) by {
                    assert(gen@.subrange(0, 4)[0] == gen@[0]);
                    assert(gen@.subrange(0, 4)[1] == gen@[1]);
                    assert(gen@.subrange(0, 4)[2] == gen@[2]);
                    assert(gen@.subrange(0, 4)[3] == gen@[3]);
                }
            }
        }
        let ghost genv = gen@;
        let r = self.save_project_at(req, gen, now);
        proof {
            if generated_collision(old(self)@, req@, genv) {
                let (ts, draws) = choose|ts: u64, draws: Seq<u32>|
                    draws.len() == 6 && genv == crate::ids::id_chars("proj"@, ts, draws);
                assert(old(self)@.has_project(crate::ids::id_chars("proj"@, ts, draws)));
            }
            if !generated_collision(old(self)@, req@, genv) {
                let id = r->Ok_0;
                assert(id@ == resolved_id(req@, genv));
                if req@.project_id is None {
                    assert(id@ == genv);
                    assert(!old(self)@.has_project(id@));
                }
                assert(save_project_model(old(self)@, req@, genv, now)
                    == save_project_model(old(self)@, req@, id@, now)) by {
                    assert(resolved_id(req@, genv) == resolved_id(req@, id@));
                }
            }
        }
        r
    }

    /// The five most recently updated projects of the local user: the
    /// head of the descending listing.
    pub fn recent_projects(&self) -> (r: Vec<Project>)
        ensures
            exists|full: Seq<ProjectV>| {
                &&& full.to_multiset() == self@.projects.filter(local_of()).to_multiset()
                &&& sorted_desc(full)
                &&& proj_views(r@) == full.subrange(
                    0,
                    if full.len() < 5 { full.len() as int } else { 5 },
                )
            },
    {
        let mut out = self.list_projects();
        let ghost full = proj_views(out@);
        out.truncate(5);
        proof {
            if full.len() >= 5 {
                assert(proj_views(out@) =~= full.subrange(0, 5));
            } else {
                assert(proj_views(out@) =~= full.subrange(0, full.len() as int));
            }
        }
        out
    }

    /// Loads a project and its messages; `NotFound` when no row carries
    /// the identifier. The returned messages mirror the project's stored
    /// rows, whose creation times are strictly ascending, so they come
    /// out ordered by creation time.
    pub fn load_project(&self, project_id: &String) -> (r: Result<ProjectWithMessages, StoreError>)
        requires
            self@.wf(),
        ensures
            self@.has_project(project_id@) ==> (r matches Ok(p)
                && p@ == load_project_model(self@, project_id@)),
            self@.has_project(project_id@) ==> asc_messages(self@.messages_of(project_id@)),
            !self@.has_project(project_id@) ==> (r matches Err(StoreError::NotFound)),
    {
        proof {
            lemma_asc_filter(self@.messages, msg_of(project_id@));
        }
        match self.find_project(project_id) {
            None => Err(StoreError::NotFound),
            Some(i) => {
                let p = &self.projects[i];
                let messages = collect_messages_of(&self.messages, project_id);
                let out = ProjectWithMessages {
                    id: p.id.clone(),
                    name: p.name.clone(),
                    description: clone_opt_string(&p.description),
                    project_type: p.project_type.clone(),
                    active_agents: p.active_agents.clone(),
                    current_code: clone_opt_string(&p.current_code),
                    visibility: p.visibility.clone(),
                    user_id: p.user_id.clone(),
                    created_at: p.created_at,
                    updated_at: p.updated_at,
                    messages,
                };
                proof {
                    assert(out@ =~= load_project_model(self@, project_id@));
                }
                Ok(out)
            }
        }
    }

    /// Lists the local user's projects, most recently updated first.
    pub fn list_projects(&self) -> (r: Vec<Project>)
        ensures
            proj_views(r@).to_multiset() == self@.projects.filter(local_of()).to_multiset(),
            sorted_desc(proj_views(r@)),
    {
        let lu = String::from_str("local-user");
        let mut out: Vec<Project> = Vec::new();
        let n = self.projects.len();
        let mut k: usize = 0;
        proof {
            assert(proj_views(out@) =~= Seq::<ProjectV>::empty());
            assert(self@.projects.subrange(0, 0) =~= Seq::<ProjectV>::empty());
            reveal_with_fuel(Seq::filter, 1);
            assert(proj_views(out@).to_multiset()
                =~= self@.projects.subrange(0, 0).filter(local_of()).to_multiset());
        }
        while k < n
            invariant
                n == self@.projects.len(),
                k <= n,
                lu@ == local_user_id(),
                proj_views(out@).to_multiset()
                    == self@.projects.subrange(0, k as int).filter(local_of()).to_multiset(),
                sorted_desc(proj_views(out@)),
            decreases n - k,
        {
            proof {
                lemma_subrange_push(self@.projects, k as int);
                lemma_filter_push(
                    self@.projects.subrange(0, k as int),
                    self@.projects[k as int],
                    local_of(),
                );
            }
            let p = &self.projects[k];
            if p.user_id == lu {
                let rec = clone_project(p);
                let ghost outv0 = out@;
                let ghost out0 = proj_views(out@);
                let mut pos: usize = 0;
                let len = out.len();
                while pos < len && out[pos].updated_at >= rec.updated_at
                    invariant
                        len == out@.len(),
                        pos <= len,
                        forall|j: int| 0 <= j < pos
                            ==> (#[trigger] proj_views(out@)[j]).updated_at >= rec@.updated_at,
                        proj_views(out@) == out0,
                        sorted_desc(proj_views(out@)),
                    decreases len - pos,
                {
                    pos = pos + 1;
                }
                out.insert(pos, rec);
                proof {
                    lemma_map_values_insert(outv0, pos as int, rec, |p: Project| p@);
                    assert(proj_views(out@) =~= out0.insert(pos as int, rec@));
                    vstd::seq_lib::to_multiset_insert(out0, pos as int, rec@);
                    vstd::seq_lib::to_multiset_build(
                        self@.projects.subrange(0, k as int).filter(local_of()),
                        self@.projects[k as int],
                    );
                    lemma_sorted_insert(out0, pos as int, rec@);
                }
            } else {
                proof {
                    assert(!local_of()(self@.projects[k as int]));
                }
            }
            k = k + 1;
        }
        proof {
            lemma_subrange_all(self@.projects);
        }
        out
    }
}

/// Copies a project row.
pub fn clone_project(p: &Project) -> (r: Project)
    ensures
        r == *p,
{
    Project {
        id: p.id.clone(),
        name: p.name.clone(),
        description: clone_opt_string(&p.description),
        project_type: p.project_type.clone(),
        active_agents: p.active_agents.clone(),
        current_code: clone_opt_string(&p.current_code),
        visibility: p.visibility.clone(),
        user_id: p.user_id.clone(),
        created_at: p.created_at,
        updated_at: p.updated_at,
    }
}

/// Builds the message rows stored for a submitted list: submission order
/// under timestamps ascending from `now`.
fn make_rows(msgs: &Vec<Message>, pid: &String, now: u64) -> (r: Vec<MessageRecord>)
    requires
        now + msgs@.len() <= u64::MAX,
    ensures
        msg_views(r@) == new_rows(dto_views(msgs@), pid@, now),
{
    let mut rows: Vec<MessageRecord> = Vec::new();
    let n = msgs.len();
    let mut k: usize = 0;
    proof {
        assert(msg_views(rows@) =~= Seq::<MessageRecordV>::empty());
        assert(new_rows(dto_views(msgs@).subrange(0, 0), pid@, now)
            =~= Seq::<MessageRecordV>::empty());
    }
    while k < n
        invariant
            n == msgs@.len(),
            k <= n,
            now + n <= u64::MAX,
            msg_views(rows@) == new_rows(dto_views(msgs@).subrange(0, k as int), pid@, now),
        decreases n - k,
    {
        let m = &msgs[k];
        let ghost r0 = rows@;
        let row = MessageRecord {
            id: m.id.clone(),
            role: m.role.clone(),
            content: m.content.clone(),
            project_id: pid.clone(),
            created_at: now + (k as u64),
        };
        rows.push(row);
        proof {
            lemma_map_values_push(r0, row, |m: MessageRecord| m@);
            lemma_subrange_push(dto_views(msgs@), k as int);
            assert(row@ == message_row(dto_views(msgs@)[k as int], pid@, (now + k) as u64));
            assert(new_rows(dto_views(msgs@).subrange(0, k + 1 as int), pid@, now)
                =~= new_rows(dto_views(msgs@).subrange(0, k as int), pid@, now).push(
                    message_row(dto_views(msgs@)[k as int], pid@, (now + k) as u64)));
        }
        k = k + 1;
    }
    proof {
        lemma_subrange_all(dto_views(msgs@));
    }
    rows
}

/// Copies the submitted form of every stored message of the project `id`,
/// in stored order.
fn collect_messages_of(msgs: &Vec<MessageRecord>, id: &String) -> (r: Vec<Message>)
    ensures
        dto_views(r@) == msg_views(msgs@).filter(msg_of(id@)).map_values(dto_of()),
{
    let mut out: Vec<Message> = Vec::new();
    let n = msgs.len();
    let mut k: usize = 0;
    proof {
        assert(dto_views(out@) =~= Seq::<MessageV>::empty());
        assert(msg_views(msgs@).subrange(0, 0) =~= Seq::<MessageRecordV>::empty());
        reveal_with_fuel(Seq::filter, 1);
        assert(msg_views(msgs@).subrange(0, 0).filter(msg_of(id@)).map_values(dto_of())
            =~= Seq::<MessageV>::empty());
    }
    while k < n
        invariant
            n == msgs@.len(),
            k <= n,
            dto_views(out@) == msg_views(msgs@).subrange(0, k as int).filter(
                msg_of(id@)).map_values(dto_of()),
        decreases n - k,
    {
        proof {
            lemma_subrange_push(msg_views(msgs@), k as int);
            lemma_filter_push(
                msg_views(msgs@).subrange(0, k as int),
                msg_views(msgs@)[k as int],
                msg_of(id@),
            );
        }
        let m = &msgs[k];
        if m.project_id == *id {
            let ghost o0 = out@;
            let copy = Message {
                id: m.id.clone(),
                role: m.role.clone(),
                content: m.content.clone(),
            };
            out.push(copy);
            proof {
                lemma_map_values_push(o0, copy, |m: Message| m@);
                lemma_map_values_push(
                    msg_views(msgs@).subrange(0, k as int).filter(msg_of(id@)),
                    msg_views(msgs@)[k as int],
                    dto_of(),
                );
                assert(copy@ == dto_of()(msg_views(msgs@)[k as int]));
            }
        }
        k = k + 1;
    }
    proof {
        lemma_subrange_all(msg_views(msgs@));
    }
    out
}

/// Inserting a row below everything at least as recent, and above
/// everything older, keeps the listing sorted.
proof fn lemma_sorted_insert(s: Seq<ProjectV>, pos: int, x: ProjectV)
    requires
        sorted_desc(s),
        0 <= pos <= s.len(),
        forall|j: int| 0 <= j < pos ==> (#[trigger] s[j]).updated_at >= x.updated_at,
        pos < s.len() ==> s[pos].updated_at <= x.updated_at,
    ensures
        sorted_desc(s.insert(pos, x)),
{
    s.insert_ensures(pos, x);
    let t = s.insert(pos, x);
    assert forall|i: int, j: int| 0 <= i < j < t.len()
        implies (#[trigger] t[i]).updated_at >= (#[trigger] t[j]).updated_at by {
        if j < pos {
            assert(t[i] == s[i] && t[j] == s[j]);
        } else if j == pos {
            assert(t[i] == s[i]);
        } else {
            assert(t[j] == s[j - 1]);
            if i < pos {
                assert(t[i] == s[i]);
                if i < j - 1 {
                    assert(s[i].updated_at >= s[j - 1].updated_at);
                }
            } else if i == pos {
                assert(t[i] == x);
                if pos < j - 1 {
                    assert(s[pos].updated_at >= s[j - 1].updated_at);
                }
            } else {
                assert(t[i] == s[i - 1]);
                if i - 1 < j - 1 {
                    assert(s[i - 1].updated_at >= s[j - 1].updated_at);
                }
            }
        }
    }
}

/// A save within the clock's range leaves the store well-formed.
pub proof fn lemma_wf_after_save(s: StoreV, req: SaveProjectRequestV, gen: Seq<char>, now: u64)
    requires
        s.wf(),
        now + req.messages.len() <= u64::MAX,
    ensures
        save_project_model(s, req, gen, now).wf(),
{
    broadcast use vstd::seq_lib::group_filter_ensures;

    let rid = resolved_id(req, gen);
    let t = save_project_model(s, req, gen, now);
    let rows = new_rows(req.messages, rid, now);
    assert forall|a: int, b: int| 0 <= a < b < rows.len()
        implies (#[trigger] rows[a]).created_at < (#[trigger] rows[b]).created_at by {
        assert(rows[a] == message_row(req.messages[a], rid, (now + a) as u64));
        assert(rows[b] == message_row(req.messages[b], rid, (now + b) as u64));
    }
    assert forall|a: int| 0 <= a < rows.len()
        implies (#[trigger] rows[a]).project_id == rid by {
        assert(rows[a] == message_row(req.messages[a], rid, (now + a) as u64));
    }
    if s.has_project(rid) {
        let w = s.project_index(rid);
        assert(t.projects.len() == s.projects.len());
        assert(forall|i: int| 0 <= i < t.projects.len()
            ==> (#[trigger] t.projects[i].id) == s.projects[i].id);
        assert forall|id2: Seq<char>| s.has_project(id2) implies t.has_project(id2) by {
            let j = choose|j: int| 0 <= j < s.projects.len() && #[trigger] s.projects[j].id == id2;
            assert(t.projects[j].id == id2);
        }
        lemma_filter_is_subset(s.messages, msg_not_of(rid));
        let keptm = s.messages.filter(msg_not_of(rid));
        assert forall|i: int| 0 <= i < t.messages.len()
            implies t.has_project(#[trigger] t.messages[i].project_id) by {
            if i < keptm.len() {
                assert(t.messages[i] == keptm[i]);
                assert(s.messages.contains(keptm[i]));
                let j = choose|j: int| 0 <= j < s.messages.len() && s.messages[j] == keptm[i];
                assert(s.has_project(s.messages[j].project_id));
            } else {
                assert(t.messages[i] == rows[i - keptm.len()]);
                assert(rows[i - keptm.len()].project_id == rid);
            }
        }
        lemma_asc_filter(s.messages, msg_not_of(rid));
        assert forall|i: int, j: int|
            0 <= i < j < t.messages.len()
                && (#[trigger] t.messages[i]).project_id == (#[trigger] t.messages[j]).project_id
            implies t.messages[i].created_at < t.messages[j].created_at by {
            if j < keptm.len() {
                assert(t.messages[i] == keptm[i] && t.messages[j] == keptm[j]);
            } else if i >= keptm.len() {
                assert(t.messages[i] == rows[i - keptm.len()]
                    && t.messages[j] == rows[j - keptm.len()]);
            } else {
                assert(t.messages[i] == keptm[i]);
                assert(msg_not_of(rid)(keptm[i]));
                assert(t.messages[j] == rows[j - keptm.len()]);
                assert(rows[j - keptm.len()].project_id == rid);
            }
        }
    } else {
        assert(forall|i: int| 0 <= i < s.projects.len()
            ==> (#[trigger] s.projects[i].id) != rid);
        assert(t.projects.len() == s.projects.len() + 1);
        assert forall|id2: Seq<char>| s.has_project(id2) implies t.has_project(id2) by {
            let j = choose|j: int| 0 <= j < s.projects.len() && #[trigger] s.projects[j].id == id2;
            assert(t.projects[j].id == id2);
        }
        assert(t.projects[s.projects.len() as int].id == rid);
        assert(t.has_project(rid));
        assert forall|i: int| 0 <= i < t.messages.len()
            implies t.has_project(#[trigger] t.messages[i].project_id) by {
            if i < s.messages.len() {
                assert(t.messages[i] == s.messages[i]);
                assert(s.has_project(s.messages[i].project_id));
            } else {
                assert(t.messages[i] == rows[i - s.messages.len()]);
                assert(rows[i - s.messages.len()].project_id == rid);
            }
        }
        assert forall|i: int, j: int|
            0 <= i < j < t.messages.len()
                && (#[trigger] t.messages[i]).project_id == (#[trigger] t.messages[j]).project_id
            implies t.messages[i].created_at < t.messages[j].created_at by {
            if j < s.messages.len() {
                assert(t.messages[i] == s.messages[i] && t.messages[j] == s.messages[j]);
            } else if i >= s.messages.len() {
                assert(t.messages[i] == rows[i - s.messages.len()]
                    && t.messages[j] == rows[j - s.messages.len()]);
            } else {
                assert(t.messages[i] == s.messages[i]);
                assert(t.messages[j] == rows[j - s.messages.len()]);
                assert(rows[j - s.messages.len()].project_id == rid);
                assert(s.has_project(s.messages[i].project_id));
            }
        }
    }
}

/// Copies every message row that does not belong to the project `id`,
/// in stored order.
fn copy_messages_except(msgs: &Vec<MessageRecord>, id: &String) -> (r: Vec<MessageRecord>)
    ensures
        msg_views(r@) == msg_views(msgs@).filter(msg_not_of(id@)),
{
    let pred = Ghost(msg_not_of(id@));
    let mut kept: Vec<MessageRecord> = Vec::new();
    let n = msgs.len();
    let mut k: usize = 0;
    proof {
        assert(msg_views(kept@) =~= Seq::<MessageRecordV>::empty());
        assert(msg_views(msgs@).subrange(0, 0) =~= Seq::<MessageRecordV>::empty());
        reveal_with_fuel(Seq::filter, 1);
    }
    while k < n
        invariant
            n == msgs@.len(),
            k <= n,
            msg_views(kept@) == msg_views(msgs@).subrange(0, k as int).filter(pred@),
            pred@ == msg_not_of(id@),
        decreases n - k,
    {
        proof {
            lemma_subrange_push(msg_views(msgs@), k as int);
            lemma_filter_push(
                msg_views(msgs@).subrange(0, k as int),
                msg_views(msgs@)[k as int],
                pred@,
            );
        }
        let m = &msgs[k];
        if !(m.project_id == *id) {
            let ghost kept0 = kept@;
            let copy = MessageRecord {
                id: m.id.clone(),
                role: m.role.clone(),
                content: m.content.clone(),
                project_id: m.project_id.clone(),
                created_at: m.created_at,
            };
            kept.push(copy);
            proof {
                assert(copy@ == msg_views(msgs@)[k as int]);
                lemma_map_values_push(kept0, copy, |m: MessageRecord| m@);
            }
        }
        k = k + 1;
    }
    proof {
        lemma_subrange_all(msg_views(msgs@));
    }
    kept
}

/// Filtering the message table preserves ascending creation times.
proof fn lemma_asc_filter(msgs: Seq<MessageRecordV>, pred: spec_fn(MessageRecordV) -> bool)
    requires
        asc_messages(msgs),
    ensures
        asc_messages(msgs.filter(pred)),
{
    let rel = |m1: MessageRecordV, m2: MessageRecordV|
        m1.project_id == m2.project_id ==> m1.created_at < m2.created_at;
    assert forall|i: int, j: int| 0 <= i < j < msgs.len() implies rel(msgs[i], msgs[j]) by {
        assert(msgs[i].project_id == msgs[j].project_id
            ==> msgs[i].created_at < msgs[j].created_at);
    }
    crate::seq_lemmas::lemma_filter_pairwise(msgs, pred, rel);
    let f = msgs.filter(pred);
    assert forall|i: int, j: int|
        0 <= i < j < f.len() && (#[trigger] f[i]).project_id == (#[trigger] f[j]).project_id
        implies f[i].created_at < f[j].created_at by {
        assert(rel(f[i], f[j]));
    }
}

/// Removing a project row and its messages preserves well-formedness.
pub proof fn lemma_wf_after_delete(s: StoreV, id: Seq<char>)
    requires
        s.wf(),
        s.has_project(id),
    ensures
        delete_project_model(s, id).wf(),
{
    let t = delete_project_model(s, id);
    lemma_asc_filter(s.messages, msg_not_of(id));
    let w = s.project_index(id);
    let pred = msg_not_of(id);
    lemma_filter_is_subset(s.messages, pred);
    broadcast use vstd::seq_lib::group_filter_ensures;

    assert forall|i: int| 0 <= i < t.messages.len()
        implies t.has_project(#[trigger] t.messages[i].project_id) by {
        let m = t.messages[i];
        assert(s.messages.contains(m)) by {
            assert(t.messages[i] == s.messages.filter(pred)[i]);
        }
        let j = choose|j: int| 0 <= j < s.messages.len() && s.messages[j] == m;
        assert(s.has_project(m.project_id));
        let pj = s.project_index(m.project_id);
        assert(pred(m));
        assert(m.project_id != id);
        assert(pj != w) by {
            if pj == w {
                assert(s.projects[w].id == id);
            }
        }
        if pj < w {
            assert(t.projects[pj].id == m.project_id);
        } else {
            assert(t.projects[pj - 1].id == m.project_id);
        }
    }
}

} // verus!
