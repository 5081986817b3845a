//! MeteorEngine: a stateful store for stream processing, with a cursor
//! (current context and namespace), an audit trail of control commands,
//! and path operations on `CONTEXT:NAMESPACE:KEY` addresses.

use vstd::prelude::*;
use crate::context::Context;
use crate::namespace::Namespace;
use crate::storage::{
    has_room, fits_limits, canonical, context_of, drop_namespace_keys, drop_namespace_nodes, found_keys, index_key,
    reach_dir, tree_remove, tree_set, ContextView, StorageData, StorageView,
};
use crate::text::{append, join, owned, split_char, split_on, str_eq, views};
use crate::workspace::{
    current_timestamp, with_key, without_key, EngineWorkspace, EngineWorkspaceView,
    NamespaceWorkspaceView, PlaceView,
};
use crate::assoc::keep_keys;

verus! {

/// Command execution record for the audit trail.
#[derive(Debug)]
pub struct ControlCommand {
    pub timestamp: u64,
    pub command_type: String,
    pub target: String,
    pub success: bool,
    pub error_message: Option<String>,
}

/// What a command record says: (type, target, success, error message).
pub type CommandView = (Seq<char>, Seq<char>, bool, Option<Seq<char>>);

/// The view of a command record (its time left out).
pub open spec fn command_view(c: ControlCommand) -> CommandView {
    (
        c.command_type@,
        c.target@,
        c.success,
        match c.error_message {
            Some(m) => Some(m@),
            None => None,
        },
    )
}

/// The views of a list of command records.
pub open spec fn command_views(s: Seq<ControlCommand>) -> Seq<CommandView> {
    s.map_values(|c: ControlCommand| command_view(c))
}

impl ControlCommand {
    /// A record of a command, not yet marked as succeeded.
    pub fn new(command_type: &str, target: &str) -> (c: Self)
        ensures
            command_view(c) == (command_type@, target@, false, None::<Seq<char>>),
    {
        ControlCommand {
            timestamp: current_timestamp(),
            command_type: owned(command_type),
            target: owned(target),
            success: false,
            error_message: None,
        }
    }

    /// The record marked as succeeded.
    pub fn success(self) -> (c: Self)
        ensures
            command_view(c) == (self.command_type@, self.target@, true, None::<Seq<char>>),
            c.timestamp == self.timestamp,
    {
        let mut c = self;
        c.success = true;
        c.error_message = None;
        c
    }

    /// The record marked as failed with an error.
    pub fn failure(self, error: &str) -> (c: Self)
        ensures
            command_view(c) == (self.command_type@, self.target@, false, Some(error@)),
            c.timestamp == self.timestamp,
    {
        let mut c = self;
        c.success = false;
        c.error_message = Some(owned(error));
        c
    }
}

/// What `parse_meteor_path` gives: `KEY` (in `app:main`), `CONTEXT:KEY` (in
/// namespace `main`), or `CONTEXT:NAMESPACE:KEY`.
pub open spec fn path_parts(path: Seq<char>) -> Result<(Seq<char>, Seq<char>, Seq<char>), Seq<char>> {
    let parts = split_on(path, ':');
    if path.len() == 0 {
        Err("Path cannot be empty"@)
    } else if parts.len() == 1 {
        Ok(("app"@, "main"@, parts[0]))
    } else if parts.len() == 2 {
        Ok((parts[0], "main"@, parts[1]))
    } else if parts.len() == 3 {
        Ok((parts[0], parts[1], parts[2]))
    } else {
        Err("Invalid meteor path format: '"@ + path + "' - expected CONTEXT[:NAMESPACE[:KEY]]"@)
    }
}

/// What `parse_meteor_path_for_directory` gives: `CONTEXT` (its `main`
/// namespace), `CONTEXT:NAMESPACE`, or `CONTEXT:NAMESPACE:PATH`.
pub open spec fn dir_path_parts(path: Seq<char>) -> Result<(Seq<char>, Seq<char>, Seq<char>), Seq<char>> {
    let parts = split_on(path, ':');
    if path.len() == 0 {
        Err("Path cannot be empty"@)
    } else if parts.len() == 1 {
        Ok((parts[0], "main"@, Seq::empty()))
    } else if parts.len() == 2 {
        if parts[1].len() == 0 {
            Ok((parts[0], "main"@, Seq::empty()))
        } else {
            Ok((parts[0], parts[1], Seq::empty()))
        }
    } else if parts.len() == 3 {
        Ok((parts[0], parts[1], parts[2]))
    } else {
        Err("Invalid meteor path format: '"@ + path + "' - expected CONTEXT[:NAMESPACE[:KEY]]"@)
    }
}

/// The storage after storing a value.
pub open spec fn set_in(m: StorageView, c: Seq<char>, n: Seq<char>, k: Seq<char>, v: Seq<char>) -> StorageView {
    m.insert(
        c,
        (
            context_of(m, c).0.insert(canonical(n, k), v),
            tree_set(context_of(m, c).1, n, k, canonical(n, k)),
        ),
    )
}

/// What storing `v` at `path` gives: the new data and key order, or the
/// error (a bad path, a key or value over its length limit, or a new
/// context beyond `MAX_CONTEXTS`).
pub open spec fn stored_at(
    d: StorageView,
    w: Map<PlaceView, NamespaceWorkspaceView>,
    path: Seq<char>,
    v: Seq<char>,
) -> Result<(StorageView, Map<PlaceView, NamespaceWorkspaceView>), Seq<char>> {
    match path_parts(path) {
        Err(m) => Err(m),
        Ok((c, n, k)) => if k.len() > crate::config::MAX_TOKEN_KEY_LENGTH {
            Err("Token key exceeds 128 characters"@)
        } else if v.len() > crate::config::MAX_TOKEN_VALUE_LENGTH {
            Err("Token value exceeds 2048 characters"@)
        } else if has_room(d, c) {
            Ok((set_in(d, c, n, k, v), with_key(w, (c, n), k)))
        } else {
            Err("Cannot create more than 100 contexts"@)
        },
    }
}

/// The value stored at (context, namespace, key).
pub open spec fn value_at(m: StorageView, c: Seq<char>, n: Seq<char>, k: Seq<char>) -> Option<Seq<char>> {
    if context_of(m, c).0.contains_key(canonical(n, k)) {
        Some(context_of(m, c).0[canonical(n, k)])
    } else {
        None
    }
}

/// The value stored at a path.
pub open spec fn path_value(m: StorageView, path: Seq<char>) -> Option<Seq<char>> {
    match path_parts(path) {
        Ok((c, n, k)) => value_at(m, c, n, k),
        Err(_) => None,
    }
}

/// The path text `context:namespace:key`.
pub open spec fn full_path(c: Seq<char>, n: Seq<char>, k: Seq<char>) -> Seq<char> {
    c + ":"@ + n + ":"@ + k
}

/// Parse a meteor path into (context, namespace, key).
pub fn parse_meteor_path(path: &str) -> (r: Result<(String, String, String), String>)
    ensures
        match path_parts(path@) {
            Ok((c, n, k)) => r matches Ok((rc, rn, rk)) && rc@ == c && rn@ == n && rk@ == k,
            Err(m) => r matches Err(e) && e@ == m,
        },
{
    if path.unicode_len() == 0 {
        return Err(owned("Path cannot be empty"));
    }
    let parts = split_char(path, ':');
    let ghost pv = parts@.map_values(|p: &str| p@);
    assert(pv == split_on(path@, ':'));
    if parts.len() == 1 {
        assert(pv[0] == parts@[0]@);
        Ok((owned("app"), owned("main"), owned(parts[0])))
    } else if parts.len() == 2 {
        assert(pv[0] == parts@[0]@ && pv[1] == parts@[1]@);
        Ok((owned(parts[0]), owned("main"), owned(parts[1])))
    } else if parts.len() == 3 {
        assert(pv[0] == parts@[0]@ && pv[1] == parts@[1]@ && pv[2] == parts@[2]@);
        Ok((owned(parts[0]), owned(parts[1]), owned(parts[2])))
    } else {
        let mut m = owned("Invalid meteor path format: '");
        append(&mut m, path);
        append(&mut m, "' - expected CONTEXT[:NAMESPACE[:KEY]]");
        Err(m)
    }
}

/// Parse a path for directory queries into (context, namespace, path).
pub fn parse_meteor_path_for_directory(path: &str) -> (r: Result<(String, String, String), String>)
    ensures
        match dir_path_parts(path@) {
            Ok((c, n, k)) => r matches Ok((rc, rn, rk)) && rc@ == c && rn@ == n && rk@ == k,
            Err(m) => r matches Err(e) && e@ == m,
        },
{
    if path.unicode_len() == 0 {
        return Err(owned("Path cannot be empty"));
    }
    let parts = split_char(path, ':');
    let ghost pv = parts@.map_values(|p: &str| p@);
    assert(pv == split_on(path@, ':'));
    if parts.len() == 1 {
        assert(pv[0] == parts@[0]@);
        Ok((owned(parts[0]), owned("main"), String::new()))
    } else if parts.len() == 2 {
        assert(pv[0] == parts@[0]@ && pv[1] == parts@[1]@);
        if parts[1].unicode_len() == 0 {
            Ok((owned(parts[0]), owned("main"), String::new()))
        } else {
            Ok((owned(parts[0]), owned(parts[1]), String::new()))
        }
    } else if parts.len() == 3 {
        assert(pv[0] == parts@[0]@ && pv[1] == parts@[1]@ && pv[2] == parts@[2]@);
        Ok((owned(parts[0]), owned(parts[1]), owned(parts[2])))
    } else {
        let mut m = owned("Invalid meteor path format: '");
        append(&mut m, path);
        append(&mut m, "' - expected CONTEXT[:NAMESPACE[:KEY]]");
        Err(m)
    }
}

/// Stateful data engine: storage, cursor, audit trail and workspace.
#[derive(Debug)]
pub struct MeteorEngine {
    storage: StorageData,
    /// The context that cursor operations use (default `app`)
    pub current_context: Context,
    /// The namespace that cursor operations use (default `main`)
    pub current_namespace: Namespace,
    command_history: Vec<ControlCommand>,
    workspace: EngineWorkspace,
}

impl MeteorEngine {
    /// The cursor's context.
    pub closed spec fn ctx(&self) -> Seq<char> {
        self.current_context@
    }

    /// The cursor's namespace.
    pub closed spec fn ns(&self) -> Seq<Seq<char>> {
        self.current_namespace@
    }

    /// The stored data.
    pub closed spec fn data(&self) -> StorageView {
        self.storage@
    }

    /// The workspace: key order per namespace, and scratch slots.
    pub closed spec fn work(&self) -> EngineWorkspaceView {
        self.workspace@
    }

    /// The workspace itself.
    pub closed spec fn workspace_parts(&self) -> EngineWorkspace {
        self.workspace
    }

    /// The audit trail.
    pub closed spec fn history(&self) -> Seq<CommandView> {
        command_views(self.command_history@)
    }

    /// A new engine with cursor `app:main` and nothing stored.
    pub fn new() -> (e: Self)
        ensures
            e.data() == Map::<Seq<char>, ContextView>::empty(),
            e.ctx() == "app"@,
            e.ns() == seq!["main"@],
            e.history() == Seq::<CommandView>::empty(),
            e.work().0 == Map::<PlaceView, NamespaceWorkspaceView>::empty(),
            e.work().1 == Map::<Seq<char>, crate::workspace::ScratchSlotView>::empty(),
    {
        MeteorEngine::with_context(Context::default())
    }

    /// A new engine whose cursor starts in the given context.
    pub fn with_context(context: Context) -> (e: Self)
        ensures
            e.data() == Map::<Seq<char>, ContextView>::empty(),
            e.ctx() == context@,
            e.ns() == seq!["main"@],
            e.history() == Seq::<CommandView>::empty(),
            e.work().0 == Map::<PlaceView, NamespaceWorkspaceView>::empty(),
            e.work().1 == Map::<Seq<char>, crate::workspace::ScratchSlotView>::empty(),
    {
        let e = MeteorEngine {
            storage: StorageData::new(),
            current_context: context,
            current_namespace: main_namespace(),
            command_history: Vec::new(),
            workspace: EngineWorkspace::new(),
        };
        assert(command_views(e.command_history@) =~= Seq::empty());
        e
    }

    /// Store a token at the cursor's context and namespace.
    pub fn store_token(&mut self, key: &str, value: &str)
        ensures
            has_room(old(self).data(), old(self).ctx()) && fits_limits(key@, value@) ==> final(self).data() == set_in(
                old(self).data(),
                old(self).ctx(),
                join(old(self).ns(), "."@),
                key@,
                value@,
            ) && final(self).work().0 == with_key(
                old(self).work().0,
                (old(self).ctx(), join(old(self).ns(), "."@)),
                key@,
            ),
            !(has_room(old(self).data(), old(self).ctx()) && fits_limits(key@, value@)) ==> final(self).data() == old(self).data()
                && final(self).work().0 == old(self).work().0,
            final(self).work().1 == old(self).work().1,
            final(self).ctx() == old(self).ctx(),
            final(self).ns() == old(self).ns(),
            final(self).history() == old(self).history(),
    {
        let namespace = self.current_namespace.to_string();
        let context = owned(self.current_context.name());
        self.store_token_at(context.as_str(), namespace.as_str(), key, value);
    }

    /// Store a token at an explicit context and namespace.
    pub fn store_token_at(&mut self, context: &str, namespace: &str, key: &str, value: &str)
        ensures
            has_room(old(self).data(), context@) && fits_limits(key@, value@) ==> final(self).data() == set_in(
                old(self).data(),
                context@,
                namespace@,
                key@,
                value@,
            ) && final(self).work().0 == with_key(old(self).work().0, (context@, namespace@), key@),
            !(has_room(old(self).data(), context@) && fits_limits(key@, value@)) ==> final(self).data() == old(self).data()
                && final(self).work().0 == old(self).work().0,
            old(self).data().dom().len() <= crate::config::MAX_CONTEXTS ==> final(self).data().dom().len()
                <= crate::config::MAX_CONTEXTS,
            final(self).work().1 == old(self).work().1,
            final(self).ctx() == old(self).ctx(),
            final(self).ns() == old(self).ns(),
            final(self).history() == old(self).history(),
    {
        if self.storage.can_store(context) && key.unicode_len() <= crate::config::MAX_TOKEN_KEY_LENGTH
            && value.unicode_len() <= crate::config::MAX_TOKEN_VALUE_LENGTH {
            self.storage.set(context, namespace, key, value);
            self.workspace.add_key(context, namespace, key);
        }
    }

    /// Move the cursor to a context.
    pub fn switch_context(&mut self, context: Context)
        ensures
            final(self).ctx() == context@,
            final(self).ns() == old(self).ns(),
            final(self).data() == old(self).data(),
            final(self).work() == old(self).work(),
            final(self).history() == old(self).history(),
    {
        self.current_context = context;
    }

    /// Move the cursor to a namespace.
    pub fn switch_namespace(&mut self, namespace: Namespace)
        ensures
            final(self).ns() == namespace@,
            final(self).ctx() == old(self).ctx(),
            final(self).data() == old(self).data(),
            final(self).work() == old(self).work(),
            final(self).history() == old(self).history(),
    {
        self.current_namespace = namespace;
    }

    /// A cursor accessor that borrows the engine.
    pub fn cursor(&mut self) -> (c: Cursor<'_>)
        ensures
            c.at() == *old(self),
    {
        Cursor { engine: self }
    }

    /// A saved cursor position, to restore with `CursorGuard::restore`.
    pub fn cursor_guard(&self) -> (g: CursorGuard)
        ensures
            g.saved_context@ == self.ctx(),
            g.saved_namespace@ == self.ns(),
    {
        CursorGuard {
            saved_context: self.current_context.clone(),
            saved_namespace: self.current_namespace.clone(),
        }
    }

    /// Move the cursor back to `app:main`.
    pub fn reset_cursor(&mut self)
        ensures
            final(self).ctx() == "app"@,
            final(self).ns() == seq!["main"@],
            final(self).data() == old(self).data(),
            final(self).work() == old(self).work(),
            final(self).history() == old(self).history(),
    {
        self.current_context = Context::default();
        self.current_namespace = main_namespace();
    }

    /// Drop all stored data and the workspace.
    pub fn clear_storage(&mut self)
        ensures
            final(self).data() == Map::<Seq<char>, ContextView>::empty(),
            final(self).work().0 == Map::<PlaceView, NamespaceWorkspaceView>::empty(),
            final(self).work().1 == Map::<Seq<char>, crate::workspace::ScratchSlotView>::empty(),
            final(self).ctx() == old(self).ctx(),
            final(self).ns() == old(self).ns(),
            final(self).history() == old(self).history(),
    {
        self.storage = StorageData::new();
        self.workspace.clear();
    }

    /// Reset the cursor and drop all stored data.
    pub fn reset_all(&mut self)
        ensures
            final(self).data() == Map::<Seq<char>, ContextView>::empty(),
            final(self).work().0 == Map::<PlaceView, NamespaceWorkspaceView>::empty(),
            final(self).work().1 == Map::<Seq<char>, crate::workspace::ScratchSlotView>::empty(),
            final(self).ctx() == "app"@,
            final(self).ns() == seq!["main"@],
            final(self).history() == old(self).history(),
    {
        self.reset_cursor();
        self.clear_storage();
    }

    /// Store a value at a path; a context beyond the first `MAX_CONTEXTS`
    /// is refused.
    pub fn set(&mut self, path: &str, value: &str) -> (r: Result<(), String>)
        ensures
            match stored_at(old(self).data(), old(self).work().0, path@, value@) {
                Ok((d, w)) => r is Ok && final(self).data() == d && final(self).work().0 == w,
                Err(m) => r matches Err(e) && e@ == m && final(self).data() == old(self).data()
                    && final(self).work() == old(self).work(),
            },
            old(self).data().dom().len() <= crate::config::MAX_CONTEXTS ==> final(self).data().dom().len()
                <= crate::config::MAX_CONTEXTS,
            final(self).work().1 == old(self).work().1,
            final(self).ctx() == old(self).ctx(),
            final(self).ns() == old(self).ns(),
            final(self).history() == old(self).history(),
    {
        let (context, namespace, key) = parse_meteor_path(path)?;
        if key.unicode_len() > crate::config::MAX_TOKEN_KEY_LENGTH {
            return Err(owned("Token key exceeds 128 characters"));
        }
        if value.unicode_len() > crate::config::MAX_TOKEN_VALUE_LENGTH {
            return Err(owned("Token value exceeds 2048 characters"));
        }
        if !self.storage.can_store(context.as_str()) {
            return Err(owned("Cannot create more than 100 contexts"));
        }
        self.storage.set(context.as_str(), namespace.as_str(), key.as_str(), value);
        self.workspace.add_key(context.as_str(), namespace.as_str(), key.as_str());
        Ok(())
    }

    /// The value at a path.
    pub fn get(&self, path: &str) -> (r: Option<&str>)
        ensures
            match path_value(self.data(), path@) {
                Some(v) => r matches Some(s) && s@ == v,
                None => r is None,
            },
    {
        match parse_meteor_path(path) {
            Ok((context, namespace, key)) => self.storage.get(
                context.as_str(),
                namespace.as_str(),
                key.as_str(),
            ),
            Err(_) => None,
        }
    }

    /// Whether a value is stored at a path.
    pub fn exists_at(&self, path: &str) -> (r: bool)
        ensures
            r == (path_value(self.data(), path@) is Some),
    {
        self.get(path).is_some()
    }

    /// Delete what a path names: a key, a whole namespace (`CONTEXT:` or
    /// `CONTEXT:NAMESPACE:`), or a whole context (`CONTEXT::`); says whether
    /// something was deleted.
    pub fn delete(&mut self, path: &str) -> (r: Result<bool, String>)
        ensures
            match path_parts(path@) {
                Err(m) => r matches Err(e) && e@ == m && final(self).data() == old(self).data()
                    && final(self).work() == old(self).work(),
                Ok((c, n, k)) => r matches Ok(b) && deleted(
                    old(self).data(),
                    old(self).work().0,
                    final(self).data(),
                    final(self).work().0,
                    c,
                    n,
                    k,
                    b,
                ),
            },
            final(self).work().1 == old(self).work().1,
            final(self).ctx() == old(self).ctx(),
            final(self).ns() == old(self).ns(),
            final(self).history() == old(self).history(),
    {
        let (context, namespace, key) = parse_meteor_path(path)?;
        let result = if key.unicode_len() == 0 {
            if namespace.unicode_len() == 0 {
                let deleted = self.storage.delete_context(context.as_str());
                if deleted {
                    self.workspace.remove_context(context.as_str());
                }
                deleted
            } else {
                let deleted = self.storage.delete_namespace(context.as_str(), namespace.as_str());
                if deleted {
                    self.workspace.remove_namespace(context.as_str(), namespace.as_str());
                }
                deleted
            }
        } else {
            let deleted = self.storage.delete_key(context.as_str(), namespace.as_str(), key.as_str());
            if deleted {
                self.workspace.remove_key(context.as_str(), namespace.as_str(), key.as_str());
            }
            deleted
        };
        Ok(result)
    }

    /// Run a control command (`delete TARGET`, `reset cursor|storage|all`)
    /// and record it in the audit trail.
    pub fn execute_control_command(&mut self, command: &str, target: &str) -> (r: Result<(), String>)
        ensures
            control_outcome(*old(self), *final(self), command@, target@, result_view(r)),
            final(self).history().len() <= crate::config::MAX_COMMAND_HISTORY,
    {
        proof {
            reveal_strlit("delete");
            reveal_strlit("reset");
            reveal_strlit("cursor");
            reveal_strlit("storage");
            reveal_strlit("all");
        }
        let cmd = ControlCommand::new(command, target);
        let ghost mut flag: bool = false;
        let is_delete = str_eq(command, "delete");
        let is_reset = str_eq(command, "reset");
        let result: Result<(), String> = if is_delete {
            match self.delete(target) {
                Ok(b) => {
                    proof {
                        flag = b;
                    }
                    Ok(())
                },
                Err(e) => Err(e),
            }
        } else if is_reset {
            if str_eq(target, "cursor") {
                self.reset_cursor();
                Ok(())
            } else if str_eq(target, "storage") {
                self.clear_storage();
                Ok(())
            } else if str_eq(target, "all") {
                self.reset_all();
                Ok(())
            } else {
                let mut m = owned("Unknown reset target: ");
                append(&mut m, target);
                Err(m)
            }
        } else {
            let mut m = owned("Unknown control command: ");
            append(&mut m, command);
            Err(m)
        };
        let cmd = match &result {
            Err(err) => cmd.failure(err.as_str()),
            Ok(_) => cmd.success(),
        };
        let ghost before = self.command_history@;
        let ghost mid_data = self.data();
        let ghost mid_work = self.work();
        let ghost mid_ctx = self.ctx();
        let ghost mid_ns = self.ns();
        self.command_history.push(cmd);
        assert(command_views(self.command_history@) =~= command_views(before).push(
            command_view(cmd),
        ));
        trim_history(&mut self.command_history);
        assert(self.data() == mid_data && self.work() == mid_work && self.ctx() == mid_ctx
            && self.ns() == mid_ns);
        proof {
            if command@ == "reset"@ && target@ == "cursor"@ {
                reveal_strlit("reset");
                reveal_strlit("delete");
                assert("reset"@.len() == 5);
                assert("delete"@.len() == 6);
                assert(command@ != "delete"@);
                assert(!is_delete);
                assert(is_reset);
                assert(result is Ok);
                assert(self.ctx() == "app"@);
                assert(self.ns() == seq!["main"@]);
                assert(self.data() == old(self).data());
            }
            if is_delete {
                if let Ok((c, n, k)) = path_parts(target@) {
                    assert(deleted(
                        old(self).data(),
                        old(self).work().0,
                        self.data(),
                        self.work().0,
                        c,
                        n,
                        k,
                        flag,
                    ));
                }
            }
        }
        result
    }

    /// The audit trail.
    pub fn command_history(&self) -> (r: &[ControlCommand])
        ensures
            command_views(r@) == self.history(),
    {
        self.command_history.as_slice()
    }

    /// The last recorded command.
    pub fn last_command(&self) -> (r: Option<&ControlCommand>)
        ensures
            self.history().len() == 0 ==> r is None,
            self.history().len() > 0 ==> (r matches Some(c) && command_view(*c) == self.history().last()),
    {
        let n = self.command_history.len();
        if n == 0 {
            None
        } else {
            assert(self.history()[n - 1] == command_view(self.command_history@[n - 1]));
            Some(&self.command_history[n - 1])
        }
    }

    /// The commands that failed, in order.
    pub fn failed_commands(&self) -> (r: Vec<&ControlCommand>)
        ensures
            r@.map_values(|c: &ControlCommand| command_view(*c)) == self.history().filter(
                |c: CommandView| !c.2,
            ),
    {
        let ghost h = self.history();
        let mut out: Vec<&ControlCommand> = Vec::new();
        let mut i: usize = 0;
        assert(h.take(0).filter(|c: CommandView| !c.2) =~= Seq::empty());
        assert(out@.map_values(|c: &ControlCommand| command_view(*c)) =~= Seq::empty());
        while i < self.command_history.len()
            invariant
                i <= self.command_history@.len(),
                h == command_views(self.command_history@),
                out@.map_values(|c: &ControlCommand| command_view(*c)) == h.take(i as int).filter(
                    |c: CommandView| !c.2,
                ),
            decreases self.command_history@.len() - i,
        {
            assert(h.take(i + 1) =~= h.take(i as int).push(h[i as int]));
            proof {
                h.take(i as int).lemma_filter_push(h[i as int], |c: CommandView| !c.2);
            }
            assert(h[i as int] == command_view(self.command_history@[i as int]));
            let c = &self.command_history[i];
            if !c.success {
                let ghost before = out@;
                out.push(c);
                assert(out@.map_values(|c: &ControlCommand| command_view(*c)) =~= before.map_values(
                    |c: &ControlCommand| command_view(*c),
                ).push(h[i as int]));
            }
            i += 1;
        }
        assert(h.take(i as int) =~= h);
        out
    }

    /// Drop the audit trail.
    pub fn clear_history(&mut self)
        ensures
            final(self).history() == Seq::<CommandView>::empty(),
            final(self).data() == old(self).data(),
            final(self).work() == old(self).work(),
            final(self).ctx() == old(self).ctx(),
            final(self).ns() == old(self).ns(),
    {
        self.command_history = Vec::new();
        assert(command_views(self.command_history@) =~= Seq::empty());
    }

    /// The storage, for queries.
    pub fn storage(&self) -> (r: &StorageData)
        ensures
            r@ == self.data(),
    {
        &self.storage
    }

    /// The contexts, sorted.
    pub fn contexts(&self) -> (r: Vec<String>)
        ensures
            views(r@) == crate::text::sorted_list(self.data().dom()),
    {
        self.storage.contexts()
    }

    /// The namespaces of a context, sorted.
    pub fn namespaces_in_context(&self, context: &str) -> (r: Vec<String>)
        ensures
            views(r@) == crate::text::sorted_list(
                crate::storage::tree_namespaces(context_of(self.data(), context@).1),
            ),
    {
        self.storage.namespaces_in_context(context)
    }

    /// The contexts, sorted (one after another, as an iteration gives them).
    pub fn contexts_iter(&self) -> (r: Vec<String>)
        ensures
            views(r@) == crate::text::sorted_list(self.data().dom()),
    {
        self.storage.contexts()
    }

    /// The namespaces of a context, sorted.
    pub fn namespaces_iter(&self, context: &str) -> (r: Vec<String>)
        ensures
            views(r@) == crate::text::sorted_list(
                crate::storage::tree_namespaces(context_of(self.data(), context@).1),
            ),
    {
        self.storage.namespaces_in_context(context)
    }

    /// Whether a value is stored at a path.
    pub fn is_file(&self, path: &str) -> (r: bool)
        ensures
            r == match path_parts(path@) {
                Ok((c, n, k)) => context_of(self.data(), c).0.contains_key(canonical(n, k)),
                Err(_) => false,
            },
    {
        match parse_meteor_path(path) {
            Ok((c, n, k)) => self.storage.is_file(c.as_str(), n.as_str(), k.as_str()),
            Err(_) => false,
        }
    }

    /// Whether a path names a directory: `CONTEXT:NAMESPACE` is one where
    /// some key of the namespace is stored; `CONTEXT:NAMESPACE:PATH` where
    /// the tree index reaches a directory.
    pub fn is_directory(&self, path: &str) -> (r: bool)
        ensures
            r == match dir_path_parts(path@) {
                Ok((c, n, k)) => if k.len() == 0 {
                    exists|ck: Seq<char>|
                        #![trigger context_of(self.data(), c).0.contains_key(ck)]
                        context_of(self.data(), c).0.contains_key(ck) && (n + ":"@).is_prefix_of(ck)
                } else {
                    reach_dir(context_of(self.data(), c).1, n, k)
                },
                Err(_) => false,
            },
    {
        match parse_meteor_path_for_directory(path) {
            Ok((c, n, k)) => if k.unicode_len() == 0 {
                let r = self.storage.namespace_exists(c.as_str(), n.as_str());
                proof {
                    let m = context_of(self.data(), c@).0;
                    let sm = context_of(self.storage@, c@).0;
                    assert(m == sm);
                    if r {
                        let ck = choose|ck: Seq<char>|
                            #![trigger sm.contains_key(ck)]
                            sm.contains_key(ck) && (n@ + ":"@).is_prefix_of(ck);
                        assert(m.contains_key(ck));
                    } else {
                        assert forall|ck: Seq<char>| #[trigger] m.contains_key(ck) implies !(n@
                            + ":"@).is_prefix_of(ck) by {
                            assert(sm.contains_key(ck));
                        }
                    }
                }
                r
            } else {
                self.storage.is_directory(c.as_str(), n.as_str(), k.as_str())
            },
            Err(_) => false,
        }
    }

    /// Whether the directory at a path has a default value (`.index`).
    pub fn has_default(&self, path: &str) -> (r: bool)
        ensures
            r == match dir_path_parts(path@) {
                Ok((c, n, k)) => context_of(self.data(), c).0.contains_key(canonical(n, index_key(k))),
                Err(_) => false,
            },
    {
        match parse_meteor_path_for_directory(path) {
            Ok((c, n, k)) => self.storage.has_default(c.as_str(), n.as_str(), k.as_str()),
            Err(_) => false,
        }
    }

    /// The default value (`.index`) of the directory at a path.
    pub fn get_default(&self, path: &str) -> (r: Option<&str>)
        ensures
            match dir_path_parts(path@) {
                Ok((c, n, k)) => match value_at(self.data(), c, n, index_key(k)) {
                    Some(v) => r matches Some(s) && s@ == v,
                    None => r is None,
                },
                Err(_) => r is None,
            },
    {
        match parse_meteor_path_for_directory(path) {
            Ok((c, n, k)) => self.storage.get_default(c.as_str(), n.as_str(), k.as_str()),
            Err(_) => None,
        }
    }

    /// The workspace, read-only.
    pub fn workspace(&self) -> (r: &EngineWorkspace)
        ensures
            *r == self.workspace_parts(),
            r@ == self.work(),
    {
        &self.workspace
    }

    /// Counts that describe the workspace.
    pub fn workspace_status(&self) -> (r: crate::workspace::WorkspaceStatus)
        ensures
            r.namespace_count == self.workspace_parts().place_entries(),
            r.scratch_slot_count == self.workspace_parts().slot_entries(),
            r.total_cached_queries == crate::workspace::saturated(
                crate::workspace::cache_sum(self.workspace_parts().place_workspaces()),
            ),
            r.total_ordered_keys == crate::workspace::saturated(
                crate::workspace::key_sum(self.workspace_parts().place_workspaces()),
            ),
    {
        self.workspace.workspace_status()
    }

    /// Make sure a scratch slot exists, and give access to it.
    pub fn scratch_slot(&mut self, name: &str) -> (g: ScratchSlotGuard)
        ensures
            final(self).work().1.contains_key(name@),
            final(self).work().1 == (if old(self).work().1.contains_key(name@) {
                old(self).work().1
            } else {
                old(self).work().1.insert(name@, (name@, Map::<Seq<char>, Seq<char>>::empty()))
            }),
            final(self).work().0 == old(self).work().0,
            final(self).data() == old(self).data(),
            g.name@ == name@,
            final(self).ctx() == old(self).ctx(),
            final(self).ns() == old(self).ns(),
            final(self).history() == old(self).history(),
    {
        self.workspace.reserve_scratch_slot(name);
        ScratchSlotGuard { name: owned(name) }
    }

    /// Remove a scratch slot; says whether it existed.
    pub fn remove_scratch_slot(&mut self, name: &str) -> (r: bool)
        ensures
            r == old(self).work().1.contains_key(name@),
            final(self).work().1 == old(self).work().1.remove(name@),
            final(self).work().0 == old(self).work().0,
            final(self).data() == old(self).data(),
            final(self).ctx() == old(self).ctx(),
            final(self).ns() == old(self).ns(),
            final(self).history() == old(self).history(),
    {
        self.workspace.remove_scratch_slot(name)
    }

    /// Remove every scratch slot.
    pub fn clear_all_scratch(&mut self)
        ensures
            final(self).work().1 == Map::<Seq<char>, crate::workspace::ScratchSlotView>::empty(),
            final(self).work().0 == old(self).work().0,
            final(self).data() == old(self).data(),
            final(self).ctx() == old(self).ctx(),
            final(self).ns() == old(self).ns(),
            final(self).history() == old(self).history(),
    {
        self.workspace.clear_all_scratch()
    }

    /// The names of the scratch slots.
    pub fn list_scratch_slots(&self) -> (r: Vec<&str>)
        ensures
            forall|n: Seq<char>|
                self.work().1.contains_key(n) <==> r@.map_values(|s: &str| s@).contains(n),
    {
        self.workspace.list_scratch_slots()
    }

    /// Whether a scratch slot exists.
    pub fn has_scratch_slot(&self, name: &str) -> (r: bool)
        ensures
            r == self.work().1.contains_key(name@),
    {
        self.workspace.get_scratch_slot(name).is_some()
    }
}

/// The result of a command as its text.
pub open spec fn result_view(r: Result<(), String>) -> Result<(), Seq<char>> {
    match r {
        Ok(_) => Ok(()),
        Err(e) => Err(e@),
    }
}

/// The last `m` entries of `s` (all of them where it has no more).
pub open spec fn keep_last<A>(s: Seq<A>, m: nat) -> Seq<A> {
    if s.len() > m {
        s.skip(s.len() - m)
    } else {
        s
    }
}

/// Drops the oldest records until at most `MAX_COMMAND_HISTORY` are left.
fn trim_history(h: &mut Vec<ControlCommand>)
    ensures
        command_views(final(h)@) == keep_last(
            command_views(old(h)@),
            crate::config::MAX_COMMAND_HISTORY as nat,
        ),
{
    let ghost full = command_views(h@);
    let ghost m = crate::config::MAX_COMMAND_HISTORY as nat;
    if h.len() <= crate::config::MAX_COMMAND_HISTORY {
        return;
    }
    while h.len() > crate::config::MAX_COMMAND_HISTORY
        invariant
            h@.len() <= full.len(),
            h@.len() >= m,
            m == crate::config::MAX_COMMAND_HISTORY as nat,
            full.len() > m,
            command_views(h@) == full.skip(full.len() - h@.len()),
        decreases h@.len(),
    {
        let ghost before = h@;
        h.remove(0);
        assert(h@ =~= before.skip(1));
        assert(command_views(h@) =~= command_views(before).skip(1));
        assert(command_views(h@) =~= full.skip(full.len() - h@.len()));
    }
    assert(h@.len() == m);
    assert(command_views(h@) =~= keep_last(full, m));
}

/// What running control command `command` on `target` does to an engine
/// (`e0` before, `e1` after) and what it answers.
pub open spec fn control_outcome(
    e0: MeteorEngine,
    e1: MeteorEngine,
    command: Seq<char>,
    target: Seq<char>,
    r: Result<(), Seq<char>>,
) -> bool {
    &&& e1.history() == keep_last(
        e0.history().push(
            (
                command,
                target,
                r is Ok,
                match r {
                    Ok(_) => None,
                    Err(e) => Some(e),
                },
            ),
        ),
        crate::config::MAX_COMMAND_HISTORY as nat,
    )
    &&& if command == "delete"@ {
        &&& e1.ctx() == e0.ctx()
        &&& e1.ns() == e0.ns()
        &&& e1.work().1 == e0.work().1
        &&& match path_parts(target) {
            Err(m) => r == Err::<(), Seq<char>>(m) && e1.data() == e0.data() && e1.work()
                == e0.work(),
            Ok((c, n, k)) => r is Ok && exists|b: bool|
                deleted(e0.data(), e0.work().0, e1.data(), e1.work().0, c, n, k, b),
        }
    } else if command == "reset"@ {
        if target == "cursor"@ {
            &&& r is Ok
            &&& e1.ctx() == "app"@
            &&& e1.ns() == seq!["main"@]
            &&& e1.data() == e0.data()
            &&& e1.work() == e0.work()
        } else if target == "storage"@ {
            &&& r is Ok
            &&& e1.data() == Map::<Seq<char>, ContextView>::empty()
            &&& e1.work().0 == Map::<PlaceView, NamespaceWorkspaceView>::empty()
            &&& e1.work().1 == Map::<Seq<char>, crate::workspace::ScratchSlotView>::empty()
            &&& e1.ctx() == e0.ctx()
            &&& e1.ns() == e0.ns()
        } else if target == "all"@ {
            &&& r is Ok
            &&& e1.data() == Map::<Seq<char>, ContextView>::empty()
            &&& e1.work().0 == Map::<PlaceView, NamespaceWorkspaceView>::empty()
            &&& e1.work().1 == Map::<Seq<char>, crate::workspace::ScratchSlotView>::empty()
            &&& e1.ctx() == "app"@
            &&& e1.ns() == seq!["main"@]
        } else {
            &&& r == Err::<(), Seq<char>>("Unknown reset target: "@ + target)
            &&& e1.data() == e0.data()
            &&& e1.work() == e0.work()
            &&& e1.ctx() == e0.ctx()
            &&& e1.ns() == e0.ns()
        }
    } else {
        &&& r == Err::<(), Seq<char>>("Unknown control command: "@ + command)
        &&& e1.data() == e0.data()
        &&& e1.work() == e0.work()
        &&& e1.ctx() == e0.ctx()
        &&& e1.ns() == e0.ns()
    }
}

/// What deleting (context, namespace, key) does to the data and the
/// workspace's key order, with `b` the answer it gives.
pub open spec fn deleted(
    d0: StorageView,
    w0: Map<PlaceView, NamespaceWorkspaceView>,
    d1: StorageView,
    w1: Map<PlaceView, NamespaceWorkspaceView>,
    c: Seq<char>,
    n: Seq<char>,
    k: Seq<char>,
    b: bool,
) -> bool {
    if k.len() == 0 && n.len() == 0 {
        &&& b == d0.contains_key(c)
        &&& d1 == d0.remove(c)
        &&& w1 == (if b {
            keep_keys(w0, |p: PlaceView| p.0 != c)
        } else {
            w0
        })
    } else if k.len() == 0 {
        &&& b == context_of(d0, c).1.contains_key(crate::storage::root_key(n))
        &&& d1 == (if d0.contains_key(c) {
            d0.insert(c, (drop_namespace_keys(d0[c].0, n), drop_namespace_nodes(d0[c].1, n)))
        } else {
            d0
        })
        &&& w1 == (if b {
            w0.remove((c, n))
        } else {
            w0
        })
    } else {
        &&& b == context_of(d0, c).0.contains_key(canonical(n, k))
        &&& d1 == (if b {
            d0.insert(c, (d0[c].0.remove(canonical(n, k)), tree_remove(d0[c].1, n, k)))
        } else {
            d0
        })
        &&& w1 == (if b {
            without_key(w0, (c, n), k)
        } else {
            w0
        })
    }
}

/// The namespace `main`.
fn main_namespace() -> (n: Namespace)
    ensures
        n@ == seq!["main"@],
{
    let mut parts: Vec<String> = Vec::new();
    parts.push(owned("main"));
    let n = Namespace::new(parts);
    assert(views(parts@) =~= seq!["main"@]);
    n
}

impl Default for MeteorEngine {
    fn default() -> (e: Self)
        ensures
            e.data() == Map::<Seq<char>, ContextView>::empty(),
            e.ctx() == "app"@,
            e.ns() == seq!["main"@],
            e.history() == Seq::<CommandView>::empty(),
    {
        MeteorEngine::new()
    }
}

/// Cursor accessor: reads and moves an engine's cursor.
pub struct Cursor<'a> {
    engine: &'a mut MeteorEngine,
}

impl<'a> Cursor<'a> {
    /// The engine as the cursor sees it.
    pub closed spec fn at(&self) -> MeteorEngine {
        *self.engine
    }

    /// The current context.
    pub fn context(&self) -> (r: &Context)
        ensures
            r@ == self.at().ctx(),
    {
        &self.engine.current_context
    }

    /// The current namespace.
    pub fn namespace(&self) -> (r: &Namespace)
        ensures
            r@ == self.at().ns(),
    {
        &self.engine.current_namespace
    }

    /// Move to a context.
    pub fn set_context(&mut self, context: &str)
        ensures
            final(self).at().ctx() == context@,
            final(self).at().ns() == old(self).at().ns(),
            final(self).at().data() == old(self).at().data(),
    {
        self.engine.current_context = Context::new(context);
    }

    /// Move to a namespace (dot-separated).
    pub fn set_namespace(&mut self, namespace: &str)
        ensures
            final(self).at().ns() == crate::namespace::dot_parts(namespace@),
            final(self).at().ctx() == old(self).at().ctx(),
            final(self).at().data() == old(self).at().data(),
    {
        self.engine.current_namespace = Namespace::from_string(namespace);
    }

    /// Move back to `app:main`.
    pub fn reset(&mut self)
        ensures
            final(self).at().ctx() == "app"@,
            final(self).at().ns() == seq!["main"@],
            final(self).at().data() == old(self).at().data(),
    {
        self.engine.reset_cursor();
    }

    /// The position as `context:namespace`.
    pub fn position(&self) -> (r: String)
        ensures
            r@ == self.at().ctx() + ":"@ + join(self.at().ns(), "."@),
    {
        let mut s = owned(self.engine.current_context.name());
        append(&mut s, ":");
        append(&mut s, self.engine.current_namespace.to_string().as_str());
        s
    }
}

/// A saved cursor position.
pub struct CursorGuard {
    pub saved_context: Context,
    pub saved_namespace: Namespace,
}

impl CursorGuard {
    /// Put the engine's cursor back where it was saved.
    pub fn restore(self, engine: &mut MeteorEngine)
        ensures
            final(engine).ctx() == self.saved_context@,
            final(engine).ns() == self.saved_namespace@,
            final(engine).data() == old(engine).data(),
            final(engine).work() == old(engine).work(),
            final(engine).history() == old(engine).history(),
    {
        engine.current_context = self.saved_context;
        engine.current_namespace = self.saved_namespace;
    }
}

/// A handle on one scratch slot of an engine's workspace.
pub struct ScratchSlotGuard {
    pub name: String,
}

impl ScratchSlotGuard {
    /// Store a value in the slot (making the slot where it was removed).
    pub fn set(&self, engine: &mut MeteorEngine, key: &str, value: &str)
        ensures
            final(engine).work().1.contains_key(self.name@),
            final(engine).work().1[self.name@].1 == (if old(engine).work().1.contains_key(
                self.name@,
            ) {
                old(engine).work().1[self.name@].1
            } else {
                Map::<Seq<char>, Seq<char>>::empty()
            }).insert(key@, value@),
            final(engine).work().0 == old(engine).work().0,
            final(engine).data() == old(engine).data(),
            final(engine).ctx() == old(engine).ctx(),
            final(engine).ns() == old(engine).ns(),
            final(engine).history() == old(engine).history(),
    {
        engine.workspace.set_scratch(self.name.as_str(), key, value);
    }

    /// A value of the slot.
    pub fn get<'b>(&self, engine: &'b MeteorEngine, key: &str) -> (r: Option<&'b str>)
        ensures
            match r {
                Some(v) => engine.work().1.contains_key(self.name@) && engine.work().1[self.name@].1.contains_key(key@)
                    && engine.work().1[self.name@].1[key@] == v@,
                None => !(engine.work().1.contains_key(self.name@)
                    && engine.work().1[self.name@].1.contains_key(key@)),
            },
    {
        match engine.workspace.get_scratch_slot(self.name.as_str()) {
            Some(s) => s.get(key),
            None => None,
        }
    }

    /// Remove the slot.
    pub fn release(self, engine: &mut MeteorEngine)
        ensures
            final(engine).work().1 == old(engine).work().1.remove(self.name@),
            final(engine).work().0 == old(engine).work().0,
            final(engine).data() == old(engine).data(),
            final(engine).ctx() == old(engine).ctx(),
            final(engine).ns() == old(engine).ns(),
            final(engine).history() == old(engine).history(),
    {
        engine.workspace.remove_scratch_slot(self.name.as_str());
    }
}

/// The keys that a view of (context, namespace) walks: the workspace's key
/// order where the namespace has a workspace, else the stored keys in
/// sorted order; none where neither has any.
pub open spec fn view_keys(
    d: StorageView,
    w: Map<PlaceView, NamespaceWorkspaceView>,
    c: Seq<char>,
    n: Seq<char>,
) -> Option<Seq<Seq<char>>> {
    if w.contains_key((c, n)) {
        Some(w[(c, n)].0)
    } else {
        let ks = crate::text::sorted_list(found_keys(context_of(d, c).0, n, "*"@));
        if ks.len() == 0 {
            None
        } else {
            Some(ks)
        }
    }
}

/// The (key, value) pairs of the first `k` keys that the path
/// `context:namespace:key` leads to a value for.
pub open spec fn entries_upto(d: StorageView, c: Seq<char>, n: Seq<char>, keys: Seq<Seq<char>>, k: int) -> Seq<
    (Seq<char>, Seq<char>),
>
    decreases k,
{
    if k <= 0 {
        Seq::empty()
    } else {
        let prev = entries_upto(d, c, n, keys, k - 1);
        match path_value(d, full_path(c, n, keys[k - 1])) {
            Some(v) => prev.push((keys[k - 1], v)),
            None => prev,
        }
    }
}

/// The (key, value) pairs of a list of keys.
pub open spec fn entries_of(d: StorageView, c: Seq<char>, n: Seq<char>, keys: Seq<Seq<char>>) -> Seq<
    (Seq<char>, Seq<char>),
> {
    entries_upto(d, c, n, keys, keys.len() as int)
}

/// The tokens of a meteor made from (key, value) pairs.
pub open spec fn pair_tokens(es: Seq<(Seq<char>, Seq<char>)>) -> Seq<crate::token::TokenView> {
    es.map_values(|p: (Seq<char>, Seq<char>)| (None::<Seq<Seq<char>>>, p.0, p.1))
}

/// The meteor of (context, namespace): its entries as tokens, if any.
pub open spec fn meteor_at(
    d: StorageView,
    w: Map<PlaceView, NamespaceWorkspaceView>,
    c: Seq<char>,
    n: Seq<char>,
) -> Option<crate::meteor::MeteorView> {
    match view_keys(d, w, c, n) {
        None => None,
        Some(ks) => {
            let es = entries_of(d, c, n, ks);
            if es.len() == 0 {
                None
            } else {
                Some((c, crate::namespace::dot_parts(n), pair_tokens(es)))
            }
        },
    }
}

/// The sorted namespaces of a context.
pub open spec fn ns_list(d: StorageView, c: Seq<char>) -> Seq<Seq<char>> {
    crate::text::sorted_list(crate::storage::tree_namespaces(context_of(d, c).1))
}

/// The meteors of the first `k` namespaces of a context.
pub open spec fn meteors_in(
    d: StorageView,
    w: Map<PlaceView, NamespaceWorkspaceView>,
    c: Seq<char>,
    names: Seq<Seq<char>>,
    k: int,
) -> Seq<crate::meteor::MeteorView>
    decreases k,
{
    if k <= 0 {
        Seq::empty()
    } else {
        let prev = meteors_in(d, w, c, names, k - 1);
        match meteor_at(d, w, c, names[k - 1]) {
            Some(m) => prev.push(m),
            None => prev,
        }
    }
}

/// The meteors of the first `k` contexts.
pub open spec fn all_meteors(
    d: StorageView,
    w: Map<PlaceView, NamespaceWorkspaceView>,
    cs: Seq<Seq<char>>,
    k: int,
) -> Seq<crate::meteor::MeteorView>
    decreases k,
{
    if k <= 0 {
        Seq::empty()
    } else {
        all_meteors(d, w, cs, k - 1) + meteors_in(
            d,
            w,
            cs[k - 1],
            ns_list(d, cs[k - 1]),
            ns_list(d, cs[k - 1]).len() as int,
        )
    }
}

/// The keys that entry iteration walks in (context, namespace): the
/// workspace's key order, else the stored keys in sorted order.
pub open spec fn walk_keys(
    d: StorageView,
    w: Map<PlaceView, NamespaceWorkspaceView>,
    c: Seq<char>,
    n: Seq<char>,
) -> Seq<Seq<char>> {
    if w.contains_key((c, n)) {
        w[(c, n)].0
    } else {
        crate::text::sorted_list(found_keys(context_of(d, c).0, n, "*"@))
    }
}

/// What entry iteration yields.
pub type EntryView = (Seq<char>, Seq<char>, Seq<char>, Seq<char>);

/// The entries of the first `k` keys of (context, namespace) that hold a
/// value.
pub open spec fn ns_entries(d: StorageView, c: Seq<char>, n: Seq<char>, keys: Seq<Seq<char>>, k: int) -> Seq<
    EntryView,
>
    decreases k,
{
    if k <= 0 {
        Seq::empty()
    } else {
        let prev = ns_entries(d, c, n, keys, k - 1);
        match value_at(d, c, n, keys[k - 1]) {
            Some(v) => prev.push((c, n, keys[k - 1], v)),
            None => prev,
        }
    }
}

/// The entries of the first `k` namespaces of a context.
pub open spec fn ctx_entries(
    d: StorageView,
    w: Map<PlaceView, NamespaceWorkspaceView>,
    c: Seq<char>,
    names: Seq<Seq<char>>,
    k: int,
) -> Seq<EntryView>
    decreases k,
{
    if k <= 0 {
        Seq::empty()
    } else {
        let keys = walk_keys(d, w, c, names[k - 1]);
        ctx_entries(d, w, c, names, k - 1) + ns_entries(d, c, names[k - 1], keys, keys.len() as int)
    }
}

/// The entries of the first `k` contexts.
pub open spec fn all_entries(
    d: StorageView,
    w: Map<PlaceView, NamespaceWorkspaceView>,
    cs: Seq<Seq<char>>,
    k: int,
) -> Seq<EntryView>
    decreases k,
{
    if k <= 0 {
        Seq::empty()
    } else {
        all_entries(d, w, cs, k - 1) + ctx_entries(
            d,
            w,
            cs[k - 1],
            ns_list(d, cs[k - 1]),
            ns_list(d, cs[k - 1]).len() as int,
        )
    }
}

/// Every entry holds the value stored at its place.
pub open spec fn entries_hold(d: StorageView, es: Seq<EntryView>) -> bool {
    forall|i: int| 0 <= i < es.len() ==> value_at(d, es[i].0, es[i].1, es[i].2) == Some(#[trigger] es[i].3)
}

/// No (context, namespace, key) comes twice.
pub open spec fn entries_distinct(es: Seq<EntryView>) -> bool {
    forall|i: int, j: int|
        0 <= i < j < es.len() ==> (#[trigger] es[i].0, es[i].1, es[i].2) != (#[trigger] es[j].0, es[j].1, es[j].2)
}

proof fn lemma_ns_entries(d: StorageView, c: Seq<char>, n: Seq<char>, keys: Seq<Seq<char>>, k: int)
    requires
        0 <= k <= keys.len(),
    ensures
        entries_hold(d, ns_entries(d, c, n, keys, k)),
        forall|i: int| 0 <= i < ns_entries(d, c, n, keys, k).len() ==> {
            let e = #[trigger] ns_entries(d, c, n, keys, k)[i];
            e.0 == c && e.1 == n && keys.take(k).contains(e.2)
        },
        keys.no_duplicates() ==> entries_distinct(ns_entries(d, c, n, keys, k)),
    decreases k,
{
    if k > 0 {
        lemma_ns_entries(d, c, n, keys, k - 1);
        let prev = ns_entries(d, c, n, keys, k - 1);
        let es = ns_entries(d, c, n, keys, k);
        assert forall|i: int| 0 <= i < prev.len() implies keys.take(k).contains(#[trigger] prev[i].2) by {
            let j = choose|j: int| 0 <= j < k - 1 && #[trigger] keys.take(k - 1)[j] == prev[i].2;
            assert(keys.take(k)[j] == prev[i].2);
        }
        match value_at(d, c, n, keys[k - 1]) {
            Some(v) => {
                assert(es == prev.push((c, n, keys[k - 1], v)));
                assert(keys.take(k)[k - 1] == keys[k - 1]);
                if keys.no_duplicates() {
                    assert forall|i: int| 0 <= i < prev.len() implies prev[i].2 != keys[k - 1] by {
                        let j = choose|j: int| 0 <= j < k - 1 && #[trigger] keys.take(k - 1)[j] == prev[i].2;
                        assert(keys[j] == prev[i].2);
                    }
                }
            },
            None => {},
        }
    }
}

proof fn lemma_ctx_entries(
    d: StorageView,
    w: Map<PlaceView, NamespaceWorkspaceView>,
    c: Seq<char>,
    names: Seq<Seq<char>>,
    k: int,
)
    requires
        0 <= k <= names.len(),
    ensures
        entries_hold(d, ctx_entries(d, w, c, names, k)),
        forall|i: int| 0 <= i < ctx_entries(d, w, c, names, k).len() ==> {
            let e = #[trigger] ctx_entries(d, w, c, names, k)[i];
            e.0 == c && names.take(k).contains(e.1)
        },
        names.no_duplicates() && (forall|j: int| 0 <= j < k ==> #[trigger] walk_keys(d, w, c, names[j]).no_duplicates())
            ==> entries_distinct(ctx_entries(d, w, c, names, k)),
    decreases k,
{
    if k > 0 {
        lemma_ctx_entries(d, w, c, names, k - 1);
        let keys = walk_keys(d, w, c, names[k - 1]);
        lemma_ns_entries(d, c, names[k - 1], keys, keys.len() as int);
        let prev = ctx_entries(d, w, c, names, k - 1);
        let cur = ns_entries(d, c, names[k - 1], keys, keys.len() as int);
        let es = ctx_entries(d, w, c, names, k);
        assert(es == prev + cur);
        assert(names.take(k)[k - 1] == names[k - 1]);
        assert forall|i: int| 0 <= i < es.len() implies names.take(k).contains(#[trigger] es[i].1) by {
            if i < prev.len() {
                assert(es[i] == prev[i]);
                let j = choose|j: int| 0 <= j < k - 1 && #[trigger] names.take(k - 1)[j] == prev[i].1;
                assert(names.take(k)[j] == prev[i].1);
            } else {
                assert(es[i] == cur[i - prev.len()]);
            }
        }
        assert forall|i: int| 0 <= i < es.len() implies value_at(d, es[i].0, es[i].1, es[i].2) == Some(
            #[trigger] es[i].3,
        ) by {
            if i < prev.len() {
                assert(es[i] == prev[i]);
            } else {
                assert(es[i] == cur[i - prev.len()]);
            }
        }
        if names.no_duplicates() && (forall|j: int| 0 <= j < k ==> #[trigger] walk_keys(d, w, c, names[j]).no_duplicates()) {
            assert(keys.no_duplicates());
            assert forall|i: int, j: int| 0 <= i < j < es.len() implies (#[trigger] es[i].0, es[i].1, es[i].2)
                != (#[trigger] es[j].0, es[j].1, es[j].2) by {
                if j < prev.len() {
                    assert(es[i] == prev[i] && es[j] == prev[j]);
                } else if i >= prev.len() {
                    assert(es[i] == cur[i - prev.len()] && es[j] == cur[j - prev.len()]);
                } else {
                    assert(es[i] == prev[i] && es[j] == cur[j - prev.len()]);
                    let m = choose|m: int| 0 <= m < k - 1 && #[trigger] names.take(k - 1)[m] == prev[i].1;
                    assert(names[m] == prev[i].1);
                }
            }
        }
    }
}

proof fn lemma_all_entries(d: StorageView, w: Map<PlaceView, NamespaceWorkspaceView>, cs: Seq<Seq<char>>, k: int)
    requires
        0 <= k <= cs.len(),
    ensures
        entries_hold(d, all_entries(d, w, cs, k)),
        forall|i: int| 0 <= i < all_entries(d, w, cs, k).len() ==> cs.take(k).contains(
            (#[trigger] all_entries(d, w, cs, k)[i]).0,
        ),
        cs.no_duplicates() && (forall|j: int| 0 <= j < k ==> #[trigger] ns_list(d, cs[j]).no_duplicates())
            && (forall|j: int, m: int| 0 <= j < k && 0 <= m < ns_list(d, cs[j]).len()
                ==> #[trigger] walk_keys(d, w, cs[j], ns_list(d, cs[j])[m]).no_duplicates())
            ==> entries_distinct(all_entries(d, w, cs, k)),
    decreases k,
{
    if k > 0 {
        lemma_all_entries(d, w, cs, k - 1);
        let names = ns_list(d, cs[k - 1]);
        lemma_ctx_entries(d, w, cs[k - 1], names, names.len() as int);
        let prev = all_entries(d, w, cs, k - 1);
        let cur = ctx_entries(d, w, cs[k - 1], names, names.len() as int);
        let es = all_entries(d, w, cs, k);
        assert(es == prev + cur);
        assert(cs.take(k)[k - 1] == cs[k - 1]);
        assert forall|i: int| 0 <= i < es.len() implies cs.take(k).contains((#[trigger] es[i]).0) by {
            if i < prev.len() {
                assert(es[i] == prev[i]);
                let j = choose|j: int| 0 <= j < k - 1 && #[trigger] cs.take(k - 1)[j] == prev[i].0;
                assert(cs.take(k)[j] == prev[i].0);
            } else {
                assert(es[i] == cur[i - prev.len()]);
            }
        }
        assert forall|i: int| 0 <= i < es.len() implies value_at(d, es[i].0, es[i].1, es[i].2) == Some(
            #[trigger] es[i].3,
        ) by {
            if i < prev.len() {
                assert(es[i] == prev[i]);
            } else {
                assert(es[i] == cur[i - prev.len()]);
            }
        }
        if cs.no_duplicates() && (forall|j: int| 0 <= j < k ==> #[trigger] ns_list(d, cs[j]).no_duplicates())
            && (forall|j: int, m: int| 0 <= j < k && 0 <= m < ns_list(d, cs[j]).len()
                ==> #[trigger] walk_keys(d, w, cs[j], ns_list(d, cs[j])[m]).no_duplicates()) {
            assert(names.no_duplicates());
            assert forall|m: int| 0 <= m < names.len() implies #[trigger] walk_keys(d, w, cs[k - 1], names[m]).no_duplicates() by {
                assert(walk_keys(d, w, cs[k - 1], ns_list(d, cs[k - 1])[m]).no_duplicates());
            }
            assert forall|i: int, j: int| 0 <= i < j < es.len() implies (#[trigger] es[i].0, es[i].1, es[i].2)
                != (#[trigger] es[j].0, es[j].1, es[j].2) by {
                if j < prev.len() {
                    assert(es[i] == prev[i] && es[j] == prev[j]);
                } else if i >= prev.len() {
                    assert(es[i] == cur[i - prev.len()] && es[j] == cur[j - prev.len()]);
                } else {
                    assert(es[i] == prev[i] && es[j] == cur[j - prev.len()]);
                    let m = choose|m: int| 0 <= m < k - 1 && #[trigger] cs.take(k - 1)[m] == prev[i].0;
                    assert(cs[m] == prev[i].0);
                }
            }
        }
    }
}

/// A read-only view of one namespace of an engine.
pub struct NamespaceView<'a> {
    /// The context this namespace belongs to
    pub context: String,
    /// The namespace path
    pub namespace: String,
    /// Number of keys the view walks
    pub entry_count: usize,
    /// Whether the keys include `.index`
    pub has_default: bool,
    engine: &'a MeteorEngine,
    keys: Vec<String>,
}

impl<'a> NamespaceView<'a> {
    /// The keys the view walks, in order.
    pub closed spec fn key_list(&self) -> Seq<Seq<char>> {
        views(self.keys@)
    }

    /// The data of the engine viewed.
    pub closed spec fn viewed(&self) -> StorageView {
        self.engine.data()
    }

    /// The view's context.
    pub closed spec fn ctx_name(&self) -> Seq<char> {
        self.context@
    }

    /// The view's namespace.
    pub closed spec fn ns_name(&self) -> Seq<char> {
        self.namespace@
    }

    /// The number of keys.
    pub closed spec fn count(&self) -> usize {
        self.entry_count
    }

    /// Whether the keys include `.index`.
    pub closed spec fn default_flag(&self) -> bool {
        self.has_default
    }

    /// The (key, value) pairs, in key order, of the keys that hold a value.
    pub fn entries(&self) -> (r: Vec<(String, String)>)
        ensures
            crate::storage::pairs_view(r@) == entries_of(
                self.viewed(),
                self.ctx_name(),
                self.ns_name(),
                self.key_list(),
            ),
    {
        let ghost ks = views(self.keys@);
        let mut out: Vec<(String, String)> = Vec::new();
        let mut i: usize = 0;
        assert(crate::storage::pairs_view(out@) =~= Seq::empty());
        while i < self.keys.len()
            invariant
                i <= self.keys@.len(),
                ks == views(self.keys@),
                crate::storage::pairs_view(out@) == entries_upto(
                    self.viewed(),
                    self.ctx_name(),
                    self.ns_name(),
                    ks,
                    i as int,
                ),
            decreases self.keys@.len() - i,
        {
            let path = path_text(self.context.as_str(), self.namespace.as_str(), self.keys[i].as_str());
            match self.engine.get(path.as_str()) {
                Some(v) => {
                    let ghost before = crate::storage::pairs_view(out@);
                    let k = owned(self.keys[i].as_str());
                    let val = owned(v);
                    out.push((k, val));
                    assert(crate::storage::pairs_view(out@) =~= before.push((ks[i as int], v@)));
                },
                None => {},
            }
            i += 1;
        }
        out
    }

    /// The keys, in order.
    pub fn keys(&self) -> (r: Vec<&str>)
        ensures
            r@.map_values(|s: &str| s@) == self.key_list(),
    {
        let mut out: Vec<&str> = Vec::new();
        let mut i: usize = 0;
        while i < self.keys.len()
            invariant
                i <= self.keys@.len(),
                out@.map_values(|s: &str| s@) == views(self.keys@).take(i as int),
            decreases self.keys@.len() - i,
        {
            let ghost before = out@.map_values(|s: &str| s@);
            out.push(self.keys[i].as_str());
            assert(out@.map_values(|s: &str| s@) =~= before.push(self.keys@[i as int]@));
            assert(views(self.keys@).take(i + 1) =~= views(self.keys@).take(i as int).push(
                self.keys@[i as int]@,
            ));
            i += 1;
        }
        assert(views(self.keys@).take(i as int) =~= views(self.keys@));
        out
    }

    /// The values, in key order, of the keys that hold one.
    pub fn values(&self) -> (r: Vec<String>)
        ensures
            views(r@) == entries_of(
                self.viewed(),
                self.ctx_name(),
                self.ns_name(),
                self.key_list(),
            ).map_values(|p: (Seq<char>, Seq<char>)| p.1),
    {
        let es = self.entries();
        let mut out: Vec<String> = Vec::new();
        let mut i: usize = 0;
        while i < es.len()
            invariant
                i <= es@.len(),
                views(out@) == crate::storage::pairs_view(es@).take(i as int).map_values(
                    |p: (Seq<char>, Seq<char>)| p.1,
                ),
            decreases es@.len() - i,
        {
            let ghost before = views(out@);
            assert(crate::storage::pairs_view(es@)[i as int] == (es@[i as int].0@, es@[i as int].1@));
            out.push(owned(es[i].1.as_str()));
            assert(views(out@) =~= before.push(es@[i as int].1@));
            assert(views(out@) =~= crate::storage::pairs_view(es@).take(i + 1).map_values(
                |p: (Seq<char>, Seq<char>)| p.1,
            ));
            i += 1;
        }
        assert(crate::storage::pairs_view(es@).take(i as int) =~= crate::storage::pairs_view(es@));
        out
    }

    /// The value of one key of the namespace.
    pub fn get(&self, key: &str) -> (r: Option<String>)
        ensures
            match path_value(self.viewed(), full_path(self.ctx_name(), self.ns_name(), key@)) {
                Some(v) => r matches Some(s) && s@ == v,
                None => r is None,
            },
    {
        let path = path_text(self.context.as_str(), self.namespace.as_str(), key);
        match self.engine.get(path.as_str()) {
            Some(v) => Some(owned(v)),
            None => None,
        }
    }

    /// Whether the view walks a key.
    pub fn has_key(&self, key: &str) -> (r: bool)
        ensures
            r == self.key_list().contains(key@),
    {
        crate::text::contains_string(&self.keys, key)
    }

    /// The stored keys of the namespace that start with `pattern`, sorted.
    pub fn find_keys(&self, pattern: &str) -> (r: Vec<String>)
        ensures
            views(r@) == crate::text::sorted_list(
                found_keys(context_of(self.viewed(), self.ctx_name()).0, self.ns_name(), pattern@),
            ),
    {
        self.engine.storage.find_keys(self.context.as_str(), self.namespace.as_str(), pattern)
    }
}

/// The path text `context:namespace:key`.
fn path_text(context: &str, namespace: &str, key: &str) -> (r: String)
    ensures
        r@ == full_path(context@, namespace@, key@),
{
    let mut s = owned(context);
    append(&mut s, ":");
    append(&mut s, namespace);
    append(&mut s, ":");
    append(&mut s, key);
    s
}

/// The meteors of an engine, one per (context, namespace) with entries.
pub struct MeteorsIterator {
    items: Vec<crate::meteor::Meteor>,
    pos: usize,
}

impl MeteorsIterator {
    /// The meteors not yet handed out.
    pub closed spec fn rest(&self) -> Seq<crate::meteor::MeteorView> {
        if self.pos <= self.items@.len() {
            crate::meteor::meteor_views(self.items@).skip(self.pos as int)
        } else {
            Seq::empty()
        }
    }

    /// The next meteor.
    pub fn next(&mut self) -> (r: Option<crate::meteor::Meteor>)
        ensures
            old(self).rest().len() == 0 ==> r is None && final(self).rest() == old(self).rest(),
            old(self).rest().len() > 0 ==> (r matches Some(m) && m@ == old(self).rest()[0])
                && final(self).rest() == old(self).rest().drop_first(),
    {
        if self.pos >= self.items.len() {
            return None;
        }
        let m = self.items[self.pos].clone();
        assert(crate::meteor::meteor_views(self.items@)[self.pos as int] == self.items@[self.pos as int]@);
        self.pos = self.pos + 1;
        assert(crate::meteor::meteor_views(self.items@).skip(self.pos as int) =~= old(self).rest().drop_first());
        Some(m)
    }
}

/// The entries of an engine: (context, namespace, key, value).
pub struct EntriesIterator {
    items: Vec<(String, String, String, String)>,
    pos: usize,
}

spec fn entry_views(s: Seq<(String, String, String, String)>) -> Seq<EntryView> {
    s.map_values(|e: (String, String, String, String)| (e.0@, e.1@, e.2@, e.3@))
}

impl EntriesIterator {
    /// The entries not yet handed out.
    pub closed spec fn rest(&self) -> Seq<EntryView> {
        if self.pos <= self.items@.len() {
            entry_views(self.items@).skip(self.pos as int)
        } else {
            Seq::empty()
        }
    }

    /// The entries not yet handed out fit in memory.
    pub proof fn lemma_rest_fits(&self)
        ensures
            self.rest().len() <= usize::MAX,
    {
        assert(self.items.len() == self.items@.len());
    }

    /// The next entry.
    pub fn next(&mut self) -> (r: Option<(String, String, String, String)>)
        ensures
            old(self).rest().len() == 0 ==> r is None && final(self).rest() == old(self).rest(),
            old(self).rest().len() > 0 ==> (r matches Some(e) && (e.0@, e.1@, e.2@, e.3@)
                == old(self).rest()[0]) && final(self).rest() == old(self).rest().drop_first(),
    {
        if self.pos >= self.items.len() {
            return None;
        }
        let e = &self.items[self.pos];
        let out = (owned(e.0.as_str()), owned(e.1.as_str()), owned(e.2.as_str()), owned(e.3.as_str()));
        assert(entry_views(self.items@)[self.pos as int] == (e.0@, e.1@, e.2@, e.3@));
        self.pos = self.pos + 1;
        assert(entry_views(self.items@).skip(self.pos as int) =~= old(self).rest().drop_first());
        Some(out)
    }
}

/// The index of the last pair with key `key`.
fn last_pair_index(v: &Vec<(String, String)>, key: &str) -> (r: Option<usize>)
    ensures
        match r {
            Some(i) => i < v@.len() && crate::storage::pairs_view(v@)[i as int].0 == key@ && forall|j: int|
                i < j < v@.len() ==> (#[trigger] crate::storage::pairs_view(v@)[j]).0 != key@,
            None => forall|j: int|
                0 <= j < v@.len() ==> (#[trigger] crate::storage::pairs_view(v@)[j]).0 != key@,
        },
{
    let ghost pv = crate::storage::pairs_view(v@);
    let mut i: usize = v.len();
    while i > 0
        invariant
            i <= v@.len(),
            pv == crate::storage::pairs_view(v@),
            forall|j: int| i <= j < v@.len() ==> (#[trigger] pv[j]).0 != key@,
        decreases i,
    {
        assert(pv[i - 1] == (v@[i - 1].0@, v@[i - 1].1@));
        if str_eq(v[i - 1].0.as_str(), key) {
            return Some(i - 1);
        }
        i -= 1;
    }
    None
}

/// An import's change, as the contracts see it.
pub enum ChangeView {
    Added(Seq<char>, Seq<char>),
    Updated(Seq<char>, Seq<char>, Seq<char>),
    Unchanged(Seq<char>),
}

/// The view of one change of an import.
pub open spec fn change_view(d: crate::export::ImportDiff) -> ChangeView {
    match d {
        crate::export::ImportDiff::Added { key, value } => ChangeView::Added(key@, value@),
        crate::export::ImportDiff::Updated { key, old_value, new_value } => ChangeView::Updated(
            key@,
            old_value@,
            new_value@,
        ),
        crate::export::ImportDiff::Unchanged { key } => ChangeView::Unchanged(key@),
    }
}

/// What an import has done so far: data, key order, counts of added,
/// updated and unchanged tokens, and the changes.
pub type ImportState = (StorageView, Map<PlaceView, NamespaceWorkspaceView>, nat, nat, nat, Seq<ChangeView>);

/// One imported token applied to the state, against the values that the
/// namespace held before the import.
pub open spec fn import_step(
    st: Result<ImportState, Seq<char>>,
    existing: Map<Seq<char>, Seq<char>>,
    c: Seq<char>,
    n: Seq<char>,
    tok: (Seq<char>, Seq<char>),
) -> Result<ImportState, Seq<char>> {
    match st {
        Err(e) => Err(e),
        Ok(s) => {
            let (key, new_value) = tok;
            if existing.contains_key(key) && existing[key] == new_value {
                Ok((s.0, s.1, s.2, s.3, s.4 + 1, s.5.push(ChangeView::Unchanged(key))))
            } else {
                match stored_at(s.0, s.1, full_path(c, n, key), new_value) {
                    Err(e) => Err(e),
                    Ok((d1, w1)) => {
                        if existing.contains_key(key) {
                            Ok((d1, w1, s.2, s.3 + 1, s.4, s.5.push(ChangeView::Updated(key, existing[key], new_value))))
                        } else {
                            Ok((d1, w1, s.2 + 1, s.3, s.4, s.5.push(ChangeView::Added(key, new_value))))
                        }
                    },
                }
            }
        },
    }
}

/// The state after the first `k` imported tokens.
pub open spec fn import_upto(
    start: ImportState,
    existing: Map<Seq<char>, Seq<char>>,
    c: Seq<char>,
    n: Seq<char>,
    toks: Seq<(Seq<char>, Seq<char>)>,
    k: int,
) -> Result<ImportState, Seq<char>>
    decreases k,
{
    if k <= 0 {
        Ok(start)
    } else {
        import_step(import_upto(start, existing, c, n, toks, k - 1), existing, c, n, toks[k - 1])
    }
}

pub proof fn lemma_import_error_stays(
    start: ImportState,
    existing: Map<Seq<char>, Seq<char>>,
    c: Seq<char>,
    n: Seq<char>,
    toks: Seq<(Seq<char>, Seq<char>)>,
    i: int,
    k: int,
)
    requires
        1 <= i <= k,
        import_upto(start, existing, c, n, toks, i) is Err,
    ensures
        import_upto(start, existing, c, n, toks, k) == import_upto(start, existing, c, n, toks, i),
    decreases k - i,
{
    if i < k {
        lemma_import_error_stays(start, existing, c, n, toks, i, k - 1);
    }
}

/// The namespace's values before an import.
pub open spec fn existing_values(
    d: StorageView,
    w: Map<PlaceView, NamespaceWorkspaceView>,
    c: Seq<char>,
    n: Seq<char>,
) -> Map<Seq<char>, Seq<char>> {
    match view_keys(d, w, c, n) {
        Some(ks) => crate::assoc::to_map(entries_of(d, c, n, ks)),
        None => Map::empty(),
    }
}

/// The checksum an export of (context, namespace) would carry now, if it
/// would have tokens.
pub open spec fn export_checksum(
    d: StorageView,
    w: Map<PlaceView, NamespaceWorkspaceView>,
    c: Seq<char>,
    n: Seq<char>,
) -> Option<Seq<char>> {
    match view_keys(d, w, c, n) {
        None => None,
        Some(ks) => {
            let es = entries_of(d, c, n, ks);
            if es.len() == 0 {
                None
            } else {
                Some(crate::export::checksum_of(c, n, es))
            }
        },
    }
}

/// The stored paths `context:namespace:key` of the first `k` namespaces of
/// a context.
pub open spec fn ctx_paths(d: StorageView, c: Seq<char>, names: Seq<Seq<char>>, k: int) -> Seq<Seq<char>>
    decreases k,
{
    if k <= 0 {
        Seq::empty()
    } else {
        ctx_paths(d, c, names, k - 1) + crate::text::sorted_list(
            found_keys(context_of(d, c).0, names[k - 1], "*"@),
        ).map_values(|key: Seq<char>| full_path(c, names[k - 1], key))
    }
}

/// The stored paths of the first `k` contexts.
pub open spec fn all_paths_upto(d: StorageView, cs: Seq<Seq<char>>, k: int) -> Seq<Seq<char>>
    decreases k,
{
    if k <= 0 {
        Seq::empty()
    } else {
        all_paths_upto(d, cs, k - 1) + ctx_paths(
            d,
            cs[k - 1],
            ns_list(d, cs[k - 1]),
            ns_list(d, cs[k - 1]).len() as int,
        )
    }
}

/// Every stored path, contexts, namespaces and keys in sorted order.
pub open spec fn stored_paths(d: StorageView) -> Seq<Seq<char>> {
    all_paths_upto(d, crate::text::sorted_list(d.dom()), crate::text::sorted_list(d.dom()).len() as int)
}

impl MeteorEngine {
    /// A view of one namespace: its keys in workspace order (or sorted
    /// stored keys), with their count and whether `.index` is among them.
    pub fn namespace_view(&self, context: &str, namespace: &str) -> (r: Option<NamespaceView<'_>>)
        ensures
            match view_keys(self.data(), self.work().0, context@, namespace@) {
                None => r is None,
                Some(ks) => r matches Some(v) && v.key_list() == ks && v.viewed() == self.data()
                    && v.ctx_name() == context@ && v.ns_name() == namespace@ && v.count() == ks.len()
                    && v.default_flag() == ks.contains(".index"@),
            },
    {
        let keys = match self.workspace.get_namespace(context, namespace) {
            Some(ws) => {
                let order = ws.key_order();
                let mut v: Vec<String> = Vec::new();
                let mut i: usize = 0;
                while i < order.len()
                    invariant
                        i <= order@.len(),
                        v@.len() == i,
                        forall|j: int| 0 <= j < i ==> (#[trigger] v@[j])@ == order@[j]@,
                    decreases order@.len() - i,
                {
                    v.push(owned(order[i].as_str()));
                    i += 1;
                }
                assert(views(v@) =~= views(order@));
                v
            },
            None => {
                let keys = self.storage.find_keys(context, namespace, "*");
                if keys.len() == 0 {
                    return None;
                }
                keys
            },
        };
        let entry_count = keys.len();
        let has_default = crate::text::contains_string(&keys, ".index");
        Some(
            NamespaceView {
                context: owned(context),
                namespace: owned(namespace),
                entry_count,
                has_default,
                engine: self,
                keys,
            },
        )
    }

    /// The meteor of (context, namespace): its entries as tokens, in key
    /// order; none where it has none.
    pub fn meteor_for(&self, context: &str, namespace: &str) -> (r: Option<crate::meteor::Meteor>)
        ensures
            match meteor_at(self.data(), self.work().0, context@, namespace@) {
                None => r is None,
                Some(m) => r matches Some(x) && x@ == m,
            },
    {
        let view = match self.namespace_view(context, namespace) {
            Some(v) => v,
            None => {
                return None;
            },
        };
        let es = view.entries();
        let ghost ev = crate::storage::pairs_view(es@);
        let mut tokens: Vec<crate::token::Token> = Vec::new();
        let mut i: usize = 0;
        while i < es.len()
            invariant
                i <= es@.len(),
                ev == crate::storage::pairs_view(es@),
                crate::token::token_views(tokens@) == pair_tokens(ev.take(i as int)),
            decreases es@.len() - i,
        {
            let ghost before = crate::token::token_views(tokens@);
            let t = crate::token::Token::new(es[i].0.as_str(), es[i].1.as_str());
            let ghost tv = t@;
            tokens.push(t);
            assert(ev[i as int] == (es@[i as int].0@, es@[i as int].1@));
            assert(crate::token::token_views(tokens@) =~= before.push(tv));
            assert(ev.take(i + 1) =~= ev.take(i as int).push(ev[i as int]));
            assert(pair_tokens(ev.take(i + 1)) =~= pair_tokens(ev.take(i as int)).push(
                (None::<Seq<Seq<char>>>, ev[i as int].0, ev[i as int].1),
            ));
            i += 1;
        }
        assert(ev.take(i as int) =~= ev);
        if tokens.len() == 0 {
            return None;
        }
        let ns = Namespace::from_string(namespace);
        proof {
            assert forall|j: int| 0 <= j < pair_tokens(ev).len() implies !crate::meteor::mismatch(
                ns@,
                #[trigger] pair_tokens(ev)[j],
            ) by {}
        }
        Some(crate::meteor::Meteor::new_with_tokens(Context::new(context), ns, tokens))
    }

    /// All meteors: one per (context, namespace) with entries, contexts and
    /// namespaces in sorted order.
    pub fn meteors(&self) -> (r: MeteorsIterator)
        ensures
            r.rest() == all_meteors(
                self.data(),
                self.work().0,
                crate::text::sorted_list(self.data().dom()),
                crate::text::sorted_list(self.data().dom()).len() as int,
            ),
    {
        let contexts = self.storage.contexts();
        let ghost cs = views(contexts@);
        let mut items: Vec<crate::meteor::Meteor> = Vec::new();
        let mut i: usize = 0;
        assert(crate::meteor::meteor_views(items@) =~= Seq::empty());
        while i < contexts.len()
            invariant
                i <= contexts@.len(),
                cs == views(contexts@),
                cs == crate::text::sorted_list(self.data().dom()),
                crate::meteor::meteor_views(items@) == all_meteors(
                    self.data(),
                    self.work().0,
                    cs,
                    i as int,
                ),
            decreases contexts@.len() - i,
        {
            let c = contexts[i].as_str();
            assert(cs[i as int] == c@);
            let names = self.storage.namespaces_in_context(c);
            let ghost nv = views(names@);
            proof {
                crate::text::lemma_sorted_distinct(nv);
            }
            let ghost base = crate::meteor::meteor_views(items@);
            let mut j: usize = 0;
            while j < names.len()
                invariant
                    j <= names@.len(),
                    nv == views(names@),
                    nv == ns_list(self.data(), c@),
                    crate::meteor::meteor_views(items@) == base + meteors_in(
                        self.data(),
                        self.work().0,
                        c@,
                        nv,
                        j as int,
                    ),
                decreases names@.len() - j,
            {
                assert(nv[j as int] == names@[j as int]@);
                match self.meteor_for(c, names[j].as_str()) {
                    Some(m) => {
                        let ghost before = crate::meteor::meteor_views(items@);
                        let ghost mv = m@;
                        items.push(m);
                        assert(crate::meteor::meteor_views(items@) =~= before.push(mv));
                    },
                    None => {},
                }
                j += 1;
            }
            i += 1;
        }
        let r = MeteorsIterator { items, pos: 0 };
        assert(crate::meteor::meteor_views(r.items@).skip(0) =~= crate::meteor::meteor_views(r.items@));
        r
    }

    /// All entries (context, namespace, key, value): contexts and
    /// namespaces sorted, keys in workspace order (or sorted).
    pub fn iter_entries(&self) -> (r: EntriesIterator)
        ensures
            r.rest() == all_entries(
                self.data(),
                self.work().0,
                crate::text::sorted_list(self.data().dom()),
                crate::text::sorted_list(self.data().dom()).len() as int,
            ),
            entries_hold(self.data(), r.rest()),
            entries_distinct(r.rest()),
    {
        let contexts = self.storage.contexts();
        let ghost cs = views(contexts@);
        let mut items: Vec<(String, String, String, String)> = Vec::new();
        let mut i: usize = 0;
        assert(entry_views(items@) =~= Seq::empty());
        while i < contexts.len()
            invariant
                i <= contexts@.len(),
                cs == views(contexts@),
                cs == crate::text::sorted_list(self.data().dom()),
                entry_views(items@) == all_entries(self.data(), self.work().0, cs, i as int),
                forall|j: int| 0 <= j < i ==> #[trigger] ns_list(self.data(), cs[j]).no_duplicates(),
                forall|j: int, m: int|
                    0 <= j < i && 0 <= m < ns_list(self.data(), cs[j]).len() ==> #[trigger] walk_keys(
                        self.data(),
                        self.work().0,
                        cs[j],
                        ns_list(self.data(), cs[j])[m],
                    ).no_duplicates(),
            decreases contexts@.len() - i,
        {
            let c = contexts[i].as_str();
            assert(cs[i as int] == c@);
            let names = self.storage.namespaces_in_context(c);
            let ghost nv = views(names@);
            proof {
                crate::text::lemma_sorted_distinct(nv);
            }
            let ghost base = entry_views(items@);
            let mut j: usize = 0;
            while j < names.len()
                invariant
                    j <= names@.len(),
                    nv == views(names@),
                    nv == ns_list(self.data(), c@),
                    entry_views(items@) == base + ctx_entries(
                        self.data(),
                        self.work().0,
                        c@,
                        nv,
                        j as int,
                    ),
                    forall|m: int|
                        0 <= m < j ==> #[trigger] walk_keys(self.data(), self.work().0, c@, nv[m]).no_duplicates(),
                decreases names@.len() - j,
            {
                let n = names[j].as_str();
                assert(nv[j as int] == n@);
                let keys = self.walk_keys(c, n);
                let ghost kv = views(keys@);
                let ghost base2 = entry_views(items@);
                let mut k: usize = 0;
                while k < keys.len()
                    invariant
                        k <= keys@.len(),
                        kv == views(keys@),
                        entry_views(items@) == base2 + ns_entries(self.data(), c@, n@, kv, k as int),
                    decreases keys@.len() - k,
                {
                    assert(kv[k as int] == keys@[k as int]@);
                    match self.storage.get(c, n, keys[k].as_str()) {
                        Some(v) => {
                            let ghost before = entry_views(items@);
                            items.push((owned(c), owned(n), owned(keys[k].as_str()), owned(v)));
                            assert(entry_views(items@) =~= before.push((c@, n@, kv[k as int], v@)));
                        },
                        None => {},
                    }
                    k += 1;
                }
                assert(base2 + ns_entries(self.data(), c@, n@, kv, kv.len() as int) =~= base
                    + ctx_entries(self.data(), self.work().0, c@, nv, j + 1));
                j += 1;
            }
            i += 1;
        }
        let r = EntriesIterator { items, pos: 0 };
        assert(entry_views(r.items@).skip(0) =~= entry_views(r.items@));
        proof {
            crate::text::lemma_sorted_distinct(cs);
            lemma_all_entries(self.data(), self.work().0, cs, cs.len() as int);
        }
        r
    }

    /// The keys that entry iteration walks in (context, namespace).
    fn walk_keys(&self, context: &str, namespace: &str) -> (r: Vec<String>)
        ensures
            views(r@) == walk_keys(self.data(), self.work().0, context@, namespace@),
            views(r@).no_duplicates(),
    {
        match self.workspace.get_namespace(context, namespace) {
            Some(ws) => {
                let order = ws.key_order();
                let mut v: Vec<String> = Vec::new();
                let mut i: usize = 0;
                while i < order.len()
                    invariant
                        i <= order@.len(),
                        v@.len() == i,
                        forall|j: int| 0 <= j < i ==> (#[trigger] v@[j])@ == order@[j]@,
                    decreases order@.len() - i,
                {
                    v.push(owned(order[i].as_str()));
                    i += 1;
                }
                assert(views(v@) =~= views(order@));
                v
            },
            None => {
                let r = self.storage.find_keys(context, namespace, "*");
                proof {
                    crate::text::lemma_sorted_distinct(views(r@));
                }
                r
            },
        }
    }

    /// An export of (context, namespace): its entries in key order, with a
    /// checksum; none where it has no entries.
    pub fn export_namespace(&self, context: &str, namespace: &str, format: crate::export::ExportFormat) -> (r:
        Option<crate::export::ExportData>)
        ensures
            match view_keys(self.data(), self.work().0, context@, namespace@) {
                None => r is None,
                Some(ks) => {
                    let es = entries_of(self.data(), context@, namespace@, ks);
                    if es.len() == 0 {
                        r is None
                    } else {
                        r matches Some(d) && d.context@ == context@ && d.namespace@ == namespace@
                            && crate::storage::pairs_view(d.tokens@) == es && d.metadata.checksum@
                            == crate::export::checksum_of(context@, namespace@, es)
                            && d.metadata.token_count == es.len() && d.format == format
                    }
                },
            },
    {
        let view = match self.namespace_view(context, namespace) {
            Some(v) => v,
            None => {
                return None;
            },
        };
        let tokens = view.entries();
        if tokens.len() == 0 {
            return None;
        }
        Some(crate::export::ExportData::new(owned(context), owned(namespace), tokens, format))
    }

    /// Import an export: each token is added, updated or found unchanged
    /// against the values that the namespace held before; the result says
    /// whether a fresh export of the namespace carries the same checksum.
    pub fn import_namespace(&mut self, data: crate::export::ExportData) -> (r: Result<crate::export::ImportResult, String>)
        ensures
            match import_upto(
                (old(self).data(), old(self).work().0, 0, 0, 0, Seq::empty()),
                existing_values(old(self).data(), old(self).work().0, data.context@, data.namespace@),
                data.context@,
                data.namespace@,
                crate::storage::pairs_view(data.tokens@),
                data.tokens@.len() as int,
            ) {
                Err(m) => r matches Err(e) && e@ == m,
                Ok(s) => r matches Ok(res) && res.success && final(self).data() == s.0
                    && final(self).work().0 == s.1 && res.tokens_added == s.2 && res.tokens_updated
                    == s.3 && res.tokens_unchanged == s.4 && res.diff@.map_values(
                    |d: crate::export::ImportDiff| change_view(d),
                ) == s.5 && res.checksum_valid == (export_checksum(
                    s.0,
                    s.1,
                    data.context@,
                    data.namespace@,
                ) == Some(data.metadata.checksum@)),
            },
            final(self).ctx() == old(self).ctx(),
            final(self).ns() == old(self).ns(),
            final(self).history() == old(self).history(),
    {
        let ghost d0 = self.data();
        let ghost w0 = self.work().0;
        let ghost ctx = data.context@;
        let ghost nsp = data.namespace@;
        let ghost toks = crate::storage::pairs_view(data.tokens@);
        let existing: Vec<(String, String)> = match self.namespace_view(
            data.context.as_str(),
            data.namespace.as_str(),
        ) {
            Some(view) => view.entries(),
            None => Vec::new(),
        };
        let ghost ex = existing_values(d0, w0, ctx, nsp);
        assert(crate::assoc::to_map(crate::storage::pairs_view(existing@)) == ex) by {
            if view_keys(d0, w0, ctx, nsp) is None {
                assert(crate::storage::pairs_view(existing@) =~= Seq::empty());
            }
        }
        let mut result = crate::export::ImportResult::new();
        let mut i: usize = 0;
        let ghost start: ImportState = (d0, w0, 0, 0, 0, Seq::empty());
        assert(result.diff@.map_values(|d: crate::export::ImportDiff| change_view(d)) =~= Seq::empty());
        while i < data.tokens.len()
            invariant
                i <= data.tokens@.len(),
                toks == crate::storage::pairs_view(data.tokens@),
                ctx == data.context@,
                nsp == data.namespace@,
                crate::assoc::to_map(crate::storage::pairs_view(existing@)) == ex,
                d0 == old(self).data(),
                w0 == old(self).work().0,
                ex == existing_values(d0, w0, ctx, nsp),
                start == (d0, w0, 0nat, 0nat, 0nat, Seq::<ChangeView>::empty()),
                import_upto(start, ex, ctx, nsp, toks, i as int) == Ok::<ImportState, Seq<char>>(
                    (
                        self.data(),
                        self.work().0,
                        result.tokens_added as nat,
                        result.tokens_updated as nat,
                        result.tokens_unchanged as nat,
                        result.diff@.map_values(|d: crate::export::ImportDiff| change_view(d)),
                    ),
                ),
                result.tokens_added <= i,
                result.tokens_updated <= i,
                result.tokens_unchanged <= i,
                self.ctx() == old(self).ctx(),
                self.ns() == old(self).ns(),
                self.history() == old(self).history(),
            decreases data.tokens@.len() - i,
        {
            let key = data.tokens[i].0.as_str();
            let new_value = data.tokens[i].1.as_str();
            assert(toks[i as int] == (key@, new_value@));
            let found = last_pair_index(&existing, key);
            proof {
                match found {
                    Some(j) => {
                        crate::assoc::lemma_to_map_last(crate::storage::pairs_view(existing@), j as int);
                    },
                    None => {
                        crate::assoc::lemma_to_map_dom(crate::storage::pairs_view(existing@), key@);
                    },
                }
            }
            let ghost before_diff = result.diff@;
            match found {
                Some(j) => {
                    let old_value = existing[j].1.as_str();
                    assert(crate::storage::pairs_view(existing@)[j as int].1 == old_value@);
                    if str_eq(old_value, new_value) {
                        result.tokens_unchanged = result.tokens_unchanged + 1;
                        result.diff.push(crate::export::ImportDiff::Unchanged { key: owned(key) });
                    } else {
                        let path = path_text(data.context.as_str(), data.namespace.as_str(), key);
                        match self.set(path.as_str(), new_value) {
                            Ok(()) => {},
                            Err(e) => {
                                assert(import_upto(start, ex, ctx, nsp, toks, i + 1) == Err::<
                                    ImportState,
                                    Seq<char>,
                                >(e@));
                                proof {
                                    lemma_import_error_stays(start, ex, ctx, nsp, toks, i + 1, toks.len() as int);
                                }
                                return Err(e);
                            },
                        }
                        result.tokens_updated = result.tokens_updated + 1;
                        result.diff.push(
                            crate::export::ImportDiff::Updated {
                                key: owned(key),
                                old_value: owned(old_value),
                                new_value: owned(new_value),
                            },
                        );
                    }
                },
                None => {
                    let path = path_text(data.context.as_str(), data.namespace.as_str(), key);
                    match self.set(path.as_str(), new_value) {
                        Ok(()) => {},
                        Err(e) => {
                            assert(import_upto(start, ex, ctx, nsp, toks, i + 1) == Err::<
                                ImportState,
                                Seq<char>,
                            >(e@));
                            proof {
                                lemma_import_error_stays(start, ex, ctx, nsp, toks, i + 1, toks.len() as int);
                            }
                            return Err(e);
                        },
                    }
                    result.tokens_added = result.tokens_added + 1;
                    result.diff.push(
                        crate::export::ImportDiff::Added { key: owned(key), value: owned(new_value) },
                    );
                }
            }
            assert(result.diff@.map_values(|d: crate::export::ImportDiff| change_view(d)) =~= before_diff.map_values(
                |d: crate::export::ImportDiff| change_view(d),
            ).push(change_view(result.diff@.last())));
            i += 1;
        }
        let recalc = self.export_namespace(data.context.as_str(), data.namespace.as_str(), data.format);
        result.checksum_valid = match recalc {
            Some(r) => str_eq(r.metadata.checksum.as_str(), data.metadata.checksum.as_str()),
            None => false,
        };
        result.success = true;
        Ok(result)
    }

    /// The paths that match a pattern, sorted: for a pattern that is a path,
    /// the keys of its namespace that start with its key part; otherwise
    /// every stored path that contains the pattern.
    pub fn find(&self, pattern: &str) -> (r: Vec<String>)
        ensures
            match path_parts(pattern@) {
                Ok((c, n, kp)) => {
                    &&& views(r@) == crate::text::sorted_list(
                        found_keys(context_of(self.data(), c).0, n, kp),
                    ).map_values(|k: Seq<char>| full_path(c, n, k))
                    &&& crate::text::strictly_sorted(views(r@))
                    &&& forall|p: Seq<char>|
                        views(r@).contains(p) <==> exists|k: Seq<char>|
                            #[trigger] found_keys(context_of(self.data(), c).0, n, kp).contains(k) && p
                                == full_path(c, n, k)
                },
                Err(_) => crate::text::sorted_seq(views(r@)) && views(r@).to_multiset() == stored_paths(
                    self.data(),
                ).filter(|p: Seq<char>| crate::text::first_occurrence(p, pattern@) is Some).to_multiset(),
            },
    {
        match parse_meteor_path(pattern) {
            Ok((c, n, kp)) => {
                let keys = self.storage.find_keys(c.as_str(), n.as_str(), kp.as_str());
                let ghost kv = views(keys@);
                let mut out: Vec<String> = Vec::new();
                let mut i: usize = 0;
                while i < keys.len()
                    invariant
                        i <= keys@.len(),
                        kv == views(keys@),
                        views(out@) == kv.take(i as int).map_values(|k: Seq<char>| full_path(c@, n@, k)),
                    decreases keys@.len() - i,
                {
                    let ghost before = views(out@);
                    let pth = path_text(c.as_str(), n.as_str(), keys[i].as_str());
                    assert(kv[i as int] == keys@[i as int]@);
                    let ghost pv = pth@;
                    out.push(pth);
                    assert(views(out@) =~= before.push(pv));
                    assert(kv.take(i + 1) =~= kv.take(i as int).push(kv[i as int]));
                    assert(kv.take(i + 1).map_values(|k: Seq<char>| full_path(c@, n@, k)) =~= kv.take(
                        i as int,
                    ).map_values(|k: Seq<char>| full_path(c@, n@, k)).push(full_path(c@, n@, kv[i as int])));
                    i += 1;
                }
                assert(kv.take(i as int) =~= kv);
                proof {
                    let pre = c@ + ":"@ + n@ + ":"@;
                    let fk = found_keys(context_of(self.data(), c@).0, n@, kp@);
                    let ov = views(out@);
                    assert forall|k: Seq<char>| full_path(c@, n@, k) == pre + k by {
                        assert(full_path(c@, n@, k) =~= pre + k);
                    }
                    assert forall|a: int, b: int| 0 <= a < b < ov.len() implies crate::text::str_lt(
                        #[trigger] ov[a],
                        #[trigger] ov[b],
                    ) by {
                        assert(crate::text::str_lt(kv[a], kv[b]));
                        crate::text::lemma_str_lt_prefix(pre, kv[a], kv[b]);
                    }
                    assert forall|p: Seq<char>| ov.contains(p) <==> exists|k: Seq<char>|
                        #[trigger] fk.contains(k) && p == full_path(c@, n@, k) by {
                        if ov.contains(p) {
                            let a = choose|a: int| 0 <= a < ov.len() && ov[a] == p;
                            assert(kv.to_set().contains(kv[a]));
                            assert(fk.contains(kv[a]));
                        }
                        if exists|k: Seq<char>| #[trigger] fk.contains(k) && p == full_path(c@, n@, k) {
                            let k = choose|k: Seq<char>| #[trigger] fk.contains(k) && p == full_path(c@, n@, k);
                            assert(kv.to_set().contains(k));
                            let a = choose|a: int| 0 <= a < kv.len() && kv[a] == k;
                            assert(ov[a] == p);
                        }
                    }
                }
                out
            },
            Err(_) => self.find_containing(pattern),
        }
    }

    fn find_containing(&self, pattern: &str) -> (r: Vec<String>)
        ensures
            crate::text::sorted_seq(views(r@)),
            views(r@).to_multiset() == stored_paths(self.data()).filter(
                |p: Seq<char>| crate::text::first_occurrence(p, pattern@) is Some,
            ).to_multiset(),
    {
        let all = self.all_paths();
        let ghost av = views(all@);
        let ghost keep = |p: Seq<char>| crate::text::first_occurrence(p, pattern@) is Some;
        let mut out: Vec<String> = Vec::new();
        let mut i: usize = 0;
        assert(av.take(0).filter(keep) =~= Seq::empty());
        assert(views(out@) =~= Seq::empty());
        while i < all.len()
            invariant
                i <= all@.len(),
                av == views(all@),
                forall|p: Seq<char>| #[trigger] keep(p) == (crate::text::first_occurrence(p, pattern@) is Some),
                crate::text::sorted_seq(views(out@)),
                views(out@).to_multiset() == av.take(i as int).filter(keep).to_multiset(),
            decreases all@.len() - i,
        {
            assert(av.take(i + 1) =~= av.take(i as int).push(av[i as int]));
            proof {
                av.take(i as int).lemma_filter_push(av[i as int], keep);
            }
            let ghost prev = av.take(i as int).filter(keep);
            if crate::text::find_str(all[i].as_str(), pattern).is_some() {
                assert(keep(av[i as int]));
                crate::text::insert_sorted_keep(&mut out, owned(all[i].as_str()));
                proof {
                    vstd::seq_lib::to_multiset_build(prev, av[i as int]);
                }
            } else {
                assert(!keep(av[i as int]));
            }
            i += 1;
        }
        assert(av.take(i as int) =~= av);
        out
    }

    /// Every stored path, in the order the storage lists them.
    fn all_paths(&self) -> (r: Vec<String>)
        ensures
            views(r@) == stored_paths(self.data()),
    {
        let contexts = self.storage.contexts();
        let ghost cs = views(contexts@);
        let mut out: Vec<String> = Vec::new();
        let mut i: usize = 0;
        assert(views(out@) =~= Seq::empty());
        while i < contexts.len()
            invariant
                i <= contexts@.len(),
                cs == views(contexts@),
                cs == crate::text::sorted_list(self.data().dom()),
                views(out@) == all_paths_upto(self.data(), cs, i as int),
            decreases contexts@.len() - i,
        {
            let c = contexts[i].as_str();
            assert(cs[i as int] == c@);
            let names = self.storage.namespaces_in_context(c);
            let ghost nv = views(names@);
            proof {
                crate::text::lemma_sorted_distinct(nv);
            }
            let ghost base = views(out@);
            let mut j: usize = 0;
            while j < names.len()
                invariant
                    j <= names@.len(),
                    nv == views(names@),
                    nv == ns_list(self.data(), c@),
                    views(out@) == base + ctx_paths(self.data(), c@, nv, j as int),
                decreases names@.len() - j,
            {
                let n = names[j].as_str();
                assert(nv[j as int] == n@);
                let keys = self.storage.find_keys(c, n, "*");
                let ghost kv = views(keys@);
                let ghost base2 = views(out@);
                let mut k: usize = 0;
                while k < keys.len()
                    invariant
                        k <= keys@.len(),
                        kv == views(keys@),
                        views(out@) == base2 + kv.take(k as int).map_values(|key: Seq<char>| full_path(c@, n@, key)),
                    decreases keys@.len() - k,
                {
                    let ghost before = views(out@);
                    assert(kv[k as int] == keys@[k as int]@);
                    let pth = path_text(c, n, keys[k].as_str());
                    let ghost pv = pth@;
                    out.push(pth);
                    assert(views(out@) =~= before.push(pv));
                    assert(kv.take(k + 1) =~= kv.take(k as int).push(kv[k as int]));
                    assert(kv.take(k + 1).map_values(|key: Seq<char>| full_path(c@, n@, key)) =~= kv.take(
                        k as int,
                    ).map_values(|key: Seq<char>| full_path(c@, n@, key)).push(full_path(c@, n@, kv[k as int])));
                    assert(views(out@) =~= base2 + kv.take(k + 1).map_values(|key: Seq<char>| full_path(c@, n@, key)));
                    k += 1;
                }
                assert(kv.take(k as int) =~= kv);
                assert(views(out@) =~= base + ctx_paths(self.data(), c@, nv, j + 1));
                j += 1;
            }
            i += 1;
        }
        out
    }
}
/// Reading a path after writing a value at it gives that value.
pub proof fn law_get_after_set(d: StorageView, path: Seq<char>, v: Seq<char>)
    requires
        path_parts(path) is Ok,
    ensures
        ({
            let (c, n, k) = path_parts(path)->Ok_0;
            path_value(set_in(d, c, n, k, v), path) == Some(v)
        }),
{
}

/// Writing a value at one path leaves every path of another context, or of
/// another key in its context, as it was: contexts are isolated.
pub proof fn law_set_isolated(d: StorageView, p: Seq<char>, q: Seq<char>, v: Seq<char>)
    requires
        path_parts(p) is Ok,
        path_parts(q) is Ok,
        ({
            let (c1, n1, k1) = path_parts(p)->Ok_0;
            let (c2, n2, k2) = path_parts(q)->Ok_0;
            c1 != c2 || canonical(n1, k1) != canonical(n2, k2)
        }),
    ensures
        ({
            let (c, n, k) = path_parts(p)->Ok_0;
            path_value(set_in(d, c, n, k, v), q) == path_value(d, q)
        }),
{
}

/// Reading a key's path after deleting it finds nothing.
pub proof fn law_get_after_delete(
    d0: StorageView,
    w0: Map<PlaceView, NamespaceWorkspaceView>,
    d1: StorageView,
    w1: Map<PlaceView, NamespaceWorkspaceView>,
    path: Seq<char>,
    b: bool,
)
    requires
        path_parts(path) is Ok,
        path_parts(path)->Ok_0.2.len() > 0,
        ({
            let (c, n, k) = path_parts(path)->Ok_0;
            deleted(d0, w0, d1, w1, c, n, k, b)
        }),
    ensures
        path_value(d1, path) is None,
{
}

/// Deleting a key answers whether a value was stored at its path.
pub proof fn law_delete_answers_presence(
    d0: StorageView,
    w0: Map<PlaceView, NamespaceWorkspaceView>,
    d1: StorageView,
    w1: Map<PlaceView, NamespaceWorkspaceView>,
    path: Seq<char>,
    b: bool,
)
    requires
        path_parts(path) is Ok,
        path_parts(path)->Ok_0.2.len() > 0,
        ({
            let (c, n, k) = path_parts(path)->Ok_0;
            deleted(d0, w0, d1, w1, c, n, k, b)
        }),
    ensures
        b == (path_value(d0, path) is Some),
{
}


/// The path of (context, namespace, key) reads back as that triple where
/// none of them holds a `:`.
proof fn lemma_full_path_parts(c: Seq<char>, n: Seq<char>, k: Seq<char>)
    requires
        !c.contains(':'),
        !n.contains(':'),
        !k.contains(':'),
    ensures
        path_parts(full_path(c, n, k)) == Ok::<(Seq<char>, Seq<char>, Seq<char>), Seq<char>>((c, n, k)),
{
    reveal_strlit(":");
    let cn = c + seq![':'] + n;
    assert(full_path(c, n, k) =~= cn + seq![':'] + k);
    crate::text::lemma_split_on_joined(cn, k, ':');
    crate::text::lemma_split_on_joined(c, n, ':');
    crate::text::lemma_split_on_plain(c, ':');
    assert(split_on(full_path(c, n, k), ':') =~= seq![c, n, k]);
    assert(full_path(c, n, k).len() > 0);
}

/// Different keys of one namespace have different stored names.
proof fn lemma_canonical_distinct(n: Seq<char>, k1: Seq<char>, k2: Seq<char>)
    requires
        k1 != k2,
    ensures
        canonical(n, k1) != canonical(n, k2),
{
    reveal_strlit(":");
    if canonical(n, k1) == canonical(n, k2) {
        let m: int = n.len() as int + 1;
        assert(canonical(n, k1).skip(m) =~= k1);
        assert(canonical(n, k2).skip(m) =~= k2);
    }
}

/// What storing values one after another gives: each call `(path, value)`
/// is stored as `MeteorEngine::set` stores it, and a refused one changes
/// nothing.
pub open spec fn set_all(
    d: StorageView,
    w: Map<PlaceView, NamespaceWorkspaceView>,
    calls: Seq<(Seq<char>, Seq<char>)>,
) -> (StorageView, Map<PlaceView, NamespaceWorkspaceView>)
    decreases calls.len(),
{
    if calls.len() == 0 {
        (d, w)
    } else {
        let (d1, w1) = set_all(d, w, calls.drop_last());
        match stored_at(d1, w1, calls.last().0, calls.last().1) {
            Ok(s) => s,
            Err(_) => (d1, w1),
        }
    }
}

/// However many values are stored into data that holds at most
/// `MAX_CONTEXTS` contexts (a new engine holds none), it never holds more.
pub proof fn law_contexts_bounded(
    d: StorageView,
    w: Map<PlaceView, NamespaceWorkspaceView>,
    calls: Seq<(Seq<char>, Seq<char>)>,
)
    requires
        d.dom().finite(),
        d.dom().len() <= crate::config::MAX_CONTEXTS,
    ensures
        set_all(d, w, calls).0.dom().finite(),
        set_all(d, w, calls).0.dom().len() <= crate::config::MAX_CONTEXTS,
    decreases calls.len(),
{
    if calls.len() > 0 {
        law_contexts_bounded(d, w, calls.drop_last());
        let (d1, w1) = set_all(d, w, calls.drop_last());
        match stored_at(d1, w1, calls.last().0, calls.last().1) {
            Ok((d2, w2)) => {
                let (c, n, k) = path_parts(calls.last().0)->Ok_0;
                assert(d2.dom() =~= d1.dom().insert(c));
            },
            Err(_) => {},
        }
    }
}

/// The tokens to import: context, namespace and keys hold no `:`, each key
/// and value is within its length limit, and no key occurs twice.
pub open spec fn plain_tokens(c: Seq<char>, n: Seq<char>, toks: Seq<(Seq<char>, Seq<char>)>) -> bool {
    &&& !c.contains(':')
    &&& !n.contains(':')
    &&& forall|i: int| 0 <= i < toks.len() ==> !(#[trigger] toks[i]).0.contains(':')
    &&& forall|i: int| 0 <= i < toks.len() ==> fits_limits((#[trigger] toks[i]).0, toks[i].1)
    &&& forall|i: int, j: int| 0 <= i < j < toks.len() ==> (#[trigger] toks[i]).0 != (#[trigger] toks[j]).0
}

/// What an import measures its tokens against holds the values stored at
/// their paths.
pub open spec fn faithful(d: StorageView, existing: Map<Seq<char>, Seq<char>>, c: Seq<char>, n: Seq<char>) -> bool {
    forall|key: Seq<char>|
        #[trigger] existing.contains_key(key) ==> path_value(d, full_path(c, n, key)) == Some(existing[key])
}

proof fn lemma_import_prefix(
    start: ImportState,
    existing: Map<Seq<char>, Seq<char>>,
    c: Seq<char>,
    n: Seq<char>,
    toks: Seq<(Seq<char>, Seq<char>)>,
    k: int,
)
    requires
        0 <= k <= toks.len(),
        plain_tokens(c, n, toks),
        faithful(start.0, existing, c, n),
        has_room(start.0, c),
    ensures
        import_upto(start, existing, c, n, toks, k) is Ok,
        has_room(import_upto(start, existing, c, n, toks, k)->Ok_0.0, c),
        forall|i: int|
            0 <= i < k ==> path_value(
                import_upto(start, existing, c, n, toks, k)->Ok_0.0,
                full_path(c, n, (#[trigger] toks[i]).0),
            ) == Some(toks[i].1),
        forall|key: Seq<char>|
            !key.contains(':') && (forall|i: int| 0 <= i < k ==> (#[trigger] toks[i]).0 != key) ==> path_value(
                import_upto(start, existing, c, n, toks, k)->Ok_0.0,
                full_path(c, n, key),
            ) == path_value(start.0, #[trigger] full_path(c, n, key)),
    decreases k,
{
    if k > 0 {
        lemma_import_prefix(start, existing, c, n, toks, k - 1);
        let prev = import_upto(start, existing, c, n, toks, k - 1)->Ok_0;
        let key = toks[k - 1].0;
        let v = toks[k - 1].1;
        assert(!key.contains(':'));
        lemma_full_path_parts(c, n, key);
        let now = import_upto(start, existing, c, n, toks, k)->Ok_0;
        if existing.contains_key(key) && existing[key] == v {
            assert(now.0 == prev.0);
            assert forall|i: int| 0 <= i < k - 1 implies (#[trigger] toks[i]).0 != key by {
                assert(toks[i].0 != toks[k - 1].0);
            }
            assert(path_value(prev.0, full_path(c, n, key)) == path_value(start.0, full_path(c, n, key)));
        } else {
            assert(now.0 == set_in(prev.0, c, n, key, v));
            law_get_after_set(prev.0, full_path(c, n, key), v);
            assert forall|i: int| 0 <= i < k implies path_value(now.0, full_path(c, n, (#[trigger] toks[i]).0))
                == Some(toks[i].1) by {
                if i < k - 1 {
                    assert(toks[i].0 != toks[k - 1].0);
                    assert(!toks[i].0.contains(':'));
                    lemma_full_path_parts(c, n, toks[i].0);
                    lemma_canonical_distinct(n, key, toks[i].0);
                    law_set_isolated(prev.0, full_path(c, n, key), full_path(c, n, toks[i].0), v);
                }
            }
            assert forall|key2: Seq<char>|
                !key2.contains(':') && (forall|i: int| 0 <= i < k ==> (#[trigger] toks[i]).0 != key2) implies path_value(
                now.0,
                full_path(c, n, key2),
            ) == path_value(start.0, #[trigger] full_path(c, n, key2)) by {
                assert(toks[k - 1].0 != key2);
                assert(forall|i: int| 0 <= i < k - 1 ==> (#[trigger] toks[i]).0 != key2);
                lemma_full_path_parts(c, n, key2);
                lemma_canonical_distinct(n, key, key2);
                law_set_isolated(prev.0, full_path(c, n, key), full_path(c, n, key2), v);
            }
        }
    }
}

proof fn lemma_entries_faithful(d: StorageView, c: Seq<char>, n: Seq<char>, keys: Seq<Seq<char>>, k: int)
    requires
        0 <= k <= keys.len(),
    ensures
        faithful(d, crate::assoc::to_map(entries_upto(d, c, n, keys, k)), c, n),
    decreases k,
{
    if k > 0 {
        lemma_entries_faithful(d, c, n, keys, k - 1);
        let prev = entries_upto(d, c, n, keys, k - 1);
        match path_value(d, full_path(c, n, keys[k - 1])) {
            Some(v) => {
                let now = prev.push((keys[k - 1], v));
                assert(now.drop_last() =~= prev);
            },
            None => {},
        }
    }
}

/// The values an import of (context, namespace) compares against are those
/// stored at their paths.
proof fn lemma_existing_faithful(
    d: StorageView,
    w: Map<PlaceView, NamespaceWorkspaceView>,
    c: Seq<char>,
    n: Seq<char>,
)
    ensures
        faithful(d, existing_values(d, w, c, n), c, n),
{
    match view_keys(d, w, c, n) {
        Some(ks) => lemma_entries_faithful(d, c, n, ks, ks.len() as int),
        None => {},
    }
}


/// Importing tokens into (context, namespace) succeeds and leaves each
/// token's value readable at its path `context:namespace:key`, where the
/// context, the namespace and the keys hold no `:`, no key occurs twice,
/// each key and value is within its length limit, and the context exists or
/// there is room for one more: what an import writes, a read gives back.
pub proof fn law_import_restores(
    d0: StorageView,
    w0: Map<PlaceView, NamespaceWorkspaceView>,
    c: Seq<char>,
    n: Seq<char>,
    toks: Seq<(Seq<char>, Seq<char>)>,
)
    requires
        plain_tokens(c, n, toks),
        has_room(d0, c),
    ensures
        import_upto(
            (d0, w0, 0, 0, 0, Seq::empty()),
            existing_values(d0, w0, c, n),
            c,
            n,
            toks,
            toks.len() as int,
        ) matches Ok(s) && forall|i: int|
            0 <= i < toks.len() ==> path_value(s.0, full_path(c, n, (#[trigger] toks[i]).0)) == Some(
                toks[i].1,
            ),
{
    lemma_existing_faithful(d0, w0, c, n);
    lemma_import_prefix((d0, w0, 0, 0, 0, Seq::empty()), existing_values(d0, w0, c, n), c, n, toks, toks.len() as int);
}


/// How many of the first `k` tokens have a key that the namespace did not
/// hold before the import.
pub open spec fn added_count(existing: Map<Seq<char>, Seq<char>>, toks: Seq<(Seq<char>, Seq<char>)>, k: int) -> nat
    decreases k,
{
    if k <= 0 {
        0
    } else {
        added_count(existing, toks, k - 1) + if !existing.contains_key(toks[k - 1].0) {
            1nat
        } else {
            0nat
        }
    }
}

/// How many of the first `k` tokens carry the value that the namespace held
/// for their key before the import.
pub open spec fn unchanged_count(
    existing: Map<Seq<char>, Seq<char>>,
    toks: Seq<(Seq<char>, Seq<char>)>,
    k: int,
) -> nat
    decreases k,
{
    if k <= 0 {
        0
    } else {
        unchanged_count(existing, toks, k - 1) + if existing.contains_key(toks[k - 1].0)
            && existing[toks[k - 1].0] == toks[k - 1].1 {
            1nat
        } else {
            0nat
        }
    }
}

proof fn lemma_import_counts(
    start: ImportState,
    existing: Map<Seq<char>, Seq<char>>,
    c: Seq<char>,
    n: Seq<char>,
    toks: Seq<(Seq<char>, Seq<char>)>,
    k: int,
)
    requires
        0 <= k <= toks.len(),
        import_upto(start, existing, c, n, toks, k) is Ok,
    ensures
        ({
            let s = import_upto(start, existing, c, n, toks, k)->Ok_0;
            &&& s.2 == start.2 + added_count(existing, toks, k)
            &&& s.4 == start.4 + unchanged_count(existing, toks, k)
            &&& s.2 + s.3 + s.4 == start.2 + start.3 + start.4 + k
            &&& s.5.len() == start.5.len() + k
        }),
    decreases k,
{
    if k > 0 {
        if import_upto(start, existing, c, n, toks, k - 1) is Err {
            assert(import_upto(start, existing, c, n, toks, k) is Err);
        }
        lemma_import_counts(start, existing, c, n, toks, k - 1);
    }
}

/// An import of tokens with distinct keys free of `:`, keys and values within
/// their length limits (into a context that exists or has room), counts each
/// token once: added where the namespace
/// did not hold its key, unchanged where it held the same value, updated
/// otherwise, with one change recorded per token.
pub proof fn law_import_counts(
    d0: StorageView,
    w0: Map<PlaceView, NamespaceWorkspaceView>,
    c: Seq<char>,
    n: Seq<char>,
    toks: Seq<(Seq<char>, Seq<char>)>,
)
    requires
        plain_tokens(c, n, toks),
        has_room(d0, c),
    ensures
        ({
            let ex = existing_values(d0, w0, c, n);
            import_upto((d0, w0, 0, 0, 0, Seq::empty()), ex, c, n, toks, toks.len() as int) matches Ok(s)
                && s.2 == added_count(ex, toks, toks.len() as int) && s.4 == unchanged_count(
                ex,
                toks,
                toks.len() as int,
            ) && s.3 == toks.len() - s.2 - s.4 && s.5.len() == toks.len()
        }),
{
    let ex = existing_values(d0, w0, c, n);
    law_import_restores(d0, w0, c, n, toks);
    lemma_import_counts((d0, w0, 0, 0, 0, Seq::empty()), ex, c, n, toks, toks.len() as int);
}


/// Deleting a key leaves every path of another context, or of another key
/// of its context, as it was; deleting a context leaves the other contexts
/// as they were.
pub proof fn law_delete_isolated(
    d0: StorageView,
    w0: Map<PlaceView, NamespaceWorkspaceView>,
    d1: StorageView,
    w1: Map<PlaceView, NamespaceWorkspaceView>,
    p: Seq<char>,
    q: Seq<char>,
    b: bool,
)
    requires
        path_parts(p) is Ok,
        path_parts(q) is Ok,
        ({
            let (c, n, k) = path_parts(p)->Ok_0;
            let (c2, n2, k2) = path_parts(q)->Ok_0;
            &&& deleted(d0, w0, d1, w1, c, n, k, b)
            &&& k.len() > 0 ==> (c != c2 || canonical(n, k) != canonical(n2, k2))
            &&& k.len() == 0 ==> n.len() == 0 && c != c2
        }),
    ensures
        path_value(d1, q) == path_value(d0, q),
{
}


/// A search by a pattern that is not a path lists each stored path that
/// contains the pattern, and nothing else: a list with the same items as the
/// matching stored paths holds exactly those paths.
pub proof fn law_find_lists_matches(d: StorageView, pattern: Seq<char>, v: Seq<Seq<char>>)
    requires
        v.to_multiset() == stored_paths(d).filter(
            |p: Seq<char>| crate::text::first_occurrence(p, pattern) is Some,
        ).to_multiset(),
    ensures
        forall|p: Seq<char>|
            v.contains(p) <==> (stored_paths(d).contains(p) && crate::text::first_occurrence(p, pattern)
                is Some),
{
    let keep = |p: Seq<char>| crate::text::first_occurrence(p, pattern) is Some;
    let all = stored_paths(d);
    let f = all.filter(keep);
    assert forall|p: Seq<char>| v.contains(p) <==> (all.contains(p) && keep(p)) by {
        vstd::seq_lib::to_multiset_contains(v, p);
        vstd::seq_lib::to_multiset_contains(f, p);
        if f.contains(p) {
            all.lemma_filter_contains_rev(keep, p);
            all.filter_lemma(keep);
            let i = choose|i: int| 0 <= i < f.len() && f[i] == p;
            assert(keep(f[i]));
        }
        if all.contains(p) && keep(p) {
            let i = choose|i: int| 0 <= i < all.len() && all[i] == p;
            all.lemma_filter_contains(keep, i);
        }
    }
}

} // verus!
