//! The command-execution engine: each decoded request is handled by
//! exactly one of four handlers against a pluggable storage backend, and
//! the outcome flows through the lifecycle hooks before it is sent.

use vstd::prelude::*;
use crate::error::{invalid_command_text, is_backend_error, not_found_text, KVError,
    resp_error, status_of};
use crate::memory::MemTable;
use crate::pb::{CommandRequest, CommandResponse, CommandResponseModel, Hdel, Hget, Hgetall,
    Hset, KvPairModel, RequestData, Value, ValueModel, resp_ok_value, STATUS_BAD_REQUEST,
    STATUS_INTERNAL, STATUS_NOT_FOUND, STATUS_OK};
use crate::storage::{opt_is_entry, pairs_match, Storage};

verus! {

/// The model of the response to a not-found read or delete.
pub open spec fn resp_not_found(t: Seq<char>, k: Seq<char>) -> CommandResponseModel {
    CommandResponseModel {
        status: STATUS_NOT_FOUND,
        message: not_found_text(t, k),
        values: Seq::empty(),
        pairs: Seq::empty(),
    }
}

/// The model of the response to a request with no populated command.
pub open spec fn resp_invalid(reason: Seq<char>) -> CommandResponseModel {
    CommandResponseModel {
        status: STATUS_BAD_REQUEST,
        message: invalid_command_text(reason),
        values: Seq::empty(),
        pairs: Seq::empty(),
    }
}

/// A backend failure surfaced as a response: internal status, no payload.
pub open spec fn resp_is_backend_failure(resp: CommandResponseModel) -> bool {
    resp.status == STATUS_INTERNAL && resp.values.len() == 0 && resp.pairs.len() == 0
}

/// The entry a table holds for a key, or the empty marker when absent:
/// what a write answers as the previous value.
pub open spec fn prior_or_empty(m: Map<Seq<char>, ValueModel>, k: Seq<char>) -> ValueModel {
    if m.contains_key(k) {
        m[k]
    } else {
        ValueModel::Empty
    }
}

/// What executing a write leaves and answers.
pub open spec fn hset_post(
    h: Hset,
    before: Map<Seq<char>, Map<Seq<char>, ValueModel>>,
    after: Map<Seq<char>, Map<Seq<char>, ValueModel>>,
    resp: CommandResponseModel,
    exact: bool,
) -> bool {
    let t = h.table@;
    let k = h.pair.key@;
    ||| {
        &&& after[t] == before[t].insert(k, h.pair.value@)
        &&& resp == resp_ok_value(prior_or_empty(before[t], k))
        &&& exact ==> forall|t2: Seq<char>| t2 != t ==> after[t2] == before[t2]
    }
    ||| (!exact && resp_is_backend_failure(resp))
}

/// What executing a read answers; the store is left as it was.
pub open spec fn hget_post(
    h: Hget,
    before: Map<Seq<char>, Map<Seq<char>, ValueModel>>,
    resp: CommandResponseModel,
    exact: bool,
) -> bool {
    let t = h.table@;
    let k = h.key@;
    ||| {
        &&& before[t].contains_key(k) && resp == resp_ok_value(before[t][k])
    }
    ||| {
        &&& !before[t].contains_key(k) && resp == resp_not_found(t, k)
    }
    ||| (!exact && resp_is_backend_failure(resp))
}

/// What executing a whole-table read answers; the store is left as it
/// was. The pairs come in no promised order.
pub open spec fn hgetall_post(
    h: Hgetall,
    before: Map<Seq<char>, Map<Seq<char>, ValueModel>>,
    resp: CommandResponseModel,
    exact: bool,
) -> bool {
    ||| {
        &&& resp.status == STATUS_OK
        &&& resp.message.len() == 0
        &&& resp.values.len() == 0
        &&& pairs_match(before[h.table@], resp.pairs)
    }
    ||| (!exact && resp_is_backend_failure(resp))
}

/// What executing a delete leaves and answers.
pub open spec fn hdel_post(
    h: Hdel,
    before: Map<Seq<char>, Map<Seq<char>, ValueModel>>,
    after: Map<Seq<char>, Map<Seq<char>, ValueModel>>,
    resp: CommandResponseModel,
    exact: bool,
) -> bool {
    let t = h.table@;
    let k = h.key@;
    ||| {
        &&& after[t] == before[t].remove(k)
        &&& (if before[t].contains_key(k) {
            resp == resp_ok_value(before[t][k])
        } else {
            resp == resp_not_found(t, k)
        })
        &&& exact ==> forall|t2: Seq<char>| t2 != t ==> after[t2] == before[t2]
    }
    ||| (!exact && resp_is_backend_failure(resp))
}

/// What dispatching any request leaves in the store and answers: the
/// matching handler's effect, or the invalid-command response when no
/// command is populated.
pub open spec fn dispatch_post(
    cmd: CommandRequest,
    before: Map<Seq<char>, Map<Seq<char>, ValueModel>>,
    after: Map<Seq<char>, Map<Seq<char>, ValueModel>>,
    resp: CommandResponseModel,
    exact: bool,
) -> bool {
    match cmd.request_data {
        Some(RequestData::Hset(h)) => hset_post(h, before, after, resp, exact),
        Some(RequestData::Hget(h)) => after == before && hget_post(h, before, resp, exact),
        Some(RequestData::Hgetall(h)) => after == before && hgetall_post(h, before, resp, exact),
        Some(RequestData::Hdel(h)) => hdel_post(h, before, after, resp, exact),
        None => after == before && resp == resp_invalid("Request has no data"@),
    }
}

/// One command handler: how a decoded command runs against a backend.
pub trait CommandService: Sized {
    /// The handler's full effect: what it may leave in the store and
    /// answer, given the contents before and whether the backend is
    /// exact.
    spec fn post(
        &self,
        before: Map<Seq<char>, Map<Seq<char>, ValueModel>>,
        after: Map<Seq<char>, Map<Seq<char>, ValueModel>>,
        resp: CommandResponseModel,
        exact: bool,
    ) -> bool;

    /// Runs the command against the store.
    fn execute<S: Storage>(self, store: &mut S) -> (r: CommandResponse)
        requires
            old(store).inv(),
        ensures
            final(store).inv(),
            final(store).exact() == old(store).exact(),
            self.post(
                old(store).contents(),
                final(store).contents(),
                r@,
                old(store).exact(),
            ),
    ;
}

impl CommandService for Hset {
    open spec fn post(
        &self,
        before: Map<Seq<char>, Map<Seq<char>, ValueModel>>,
        after: Map<Seq<char>, Map<Seq<char>, ValueModel>>,
        resp: CommandResponseModel,
        exact: bool,
    ) -> bool {
        hset_post(*self, before, after, resp, exact)
    }

    fn execute<S: Storage>(self, store: &mut S) -> (r: CommandResponse) {
        let Hset { table, pair } = self;
        let crate::pb::KvPair { key, value } = pair;
        match store.set(table.as_str(), key, value) {
            Ok(Some(prior)) => CommandResponse::ok_value(prior),
            Ok(None) => CommandResponse::ok_value(Value::Empty),
            Err(e) => e.into_response(),
        }
    }
}

impl CommandService for Hget {
    open spec fn post(
        &self,
        before: Map<Seq<char>, Map<Seq<char>, ValueModel>>,
        after: Map<Seq<char>, Map<Seq<char>, ValueModel>>,
        resp: CommandResponseModel,
        exact: bool,
    ) -> bool {
        after == before && hget_post(*self, before, resp, exact)
    }

    fn execute<S: Storage>(self, store: &mut S) -> (r: CommandResponse) {
        let Hget { table, key } = self;
        match store.get(table.as_str(), key.as_str()) {
            Ok(Some(v)) => CommandResponse::ok_value(v),
            Ok(None) => KVError::NotFound(table, key).into_response(),
            Err(e) => e.into_response(),
        }
    }
}

impl CommandService for Hgetall {
    open spec fn post(
        &self,
        before: Map<Seq<char>, Map<Seq<char>, ValueModel>>,
        after: Map<Seq<char>, Map<Seq<char>, ValueModel>>,
        resp: CommandResponseModel,
        exact: bool,
    ) -> bool {
        after == before && hgetall_post(*self, before, resp, exact)
    }

    fn execute<S: Storage>(self, store: &mut S) -> (r: CommandResponse) {
        let Hgetall { table } = self;
        match store.get_all(table.as_str()) {
            Ok(pairs) => CommandResponse::ok_pairs(pairs),
            Err(e) => e.into_response(),
        }
    }
}

impl CommandService for Hdel {
    open spec fn post(
        &self,
        before: Map<Seq<char>, Map<Seq<char>, ValueModel>>,
        after: Map<Seq<char>, Map<Seq<char>, ValueModel>>,
        resp: CommandResponseModel,
        exact: bool,
    ) -> bool {
        hdel_post(*self, before, after, resp, exact)
    }

    fn execute<S: Storage>(self, store: &mut S) -> (r: CommandResponse) {
        let Hdel { table, key } = self;
        match store.del(table.as_str(), key.as_str()) {
            Ok(Some(v)) => CommandResponse::ok_value(v),
            Ok(None) => KVError::NotFound(table, key).into_response(),
            Err(e) => e.into_response(),
        }
    }
}

/// Dispatches a request to the handler of its populated alternative; a
/// request with none is answered with the invalid-command response.
pub fn dispatch<S: Storage>(cmd: CommandRequest, store: &mut S) -> (r: CommandResponse)
    requires
        old(store).inv(),
    ensures
        final(store).inv(),
        final(store).exact() == old(store).exact(),
        dispatch_post(cmd, old(store).contents(), final(store).contents(), r@,
            old(store).exact()),
{
    match cmd.request_data {
        Some(RequestData::Hset(param)) => param.execute(store),
        Some(RequestData::Hget(param)) => param.execute(store),
        Some(RequestData::Hgetall(param)) => param.execute(store),
        Some(RequestData::Hdel(param)) => param.execute(store),
        None => KVError::InvalidCommand("Request has no data".to_owned()).into_response(),
    }
}

/// An observer hook: sees a borrowed event, changes nothing the
/// contracts speak of.
pub trait Notify<Arg> {
    fn notify(&self, arg: &Arg);
}

/// A rewriting hook: its executable effect is exactly its declared
/// specification-level transformation.
pub trait NotifyMut<Arg> {
    /// What the hook turns the event into.
    spec fn spec_notify(&self, arg: Arg) -> Arg;

    fn notify(&self, arg: &mut Arg)
        ensures
            *final(arg) == self.spec_notify(*old(arg)),
    ;
}

/// One registered observer hook.
#[verifier::reject_recursive_types(Arg)]
pub struct Observer<Arg> {
    pub hook: Box<dyn Notify<Arg>>,
}

/// One registered rewriting hook.
#[verifier::reject_recursive_types(Arg)]
pub struct Rewriter<Arg> {
    pub hook: Box<dyn NotifyMut<Arg>>,
}

/// The value after every hook of the list has run once, in order: the
/// first registered hook is applied first.
pub open spec fn fold_notify<Arg>(hooks: Seq<Rewriter<Arg>>, a: Arg) -> Arg
    decreases hooks.len(),
{
    if hooks.len() == 0 {
        a
    } else {
        fold_notify(hooks.skip(1), hooks[0].hook.spec_notify(a))
    }
}

/// Appending a hook to the list makes it run last.
pub proof fn lemma_fold_notify_snoc<Arg>(hooks: Seq<Rewriter<Arg>>, h: Rewriter<Arg>, a: Arg)
    ensures
        fold_notify(hooks.push(h), a) == h.hook.spec_notify(fold_notify(hooks, a)),
    decreases hooks.len(),
{
    if hooks.len() == 0 {
        assert(hooks.push(h).skip(1) =~= Seq::<Rewriter<Arg>>::empty());
        assert(hooks.push(h)[0] == h);
        assert(fold_notify(Seq::<Rewriter<Arg>>::empty(), h.hook.spec_notify(a))
            == h.hook.spec_notify(a));
    } else {
        assert(hooks.push(h).skip(1) =~= hooks.skip(1).push(h));
        lemma_fold_notify_snoc(hooks.skip(1), h, hooks[0].hook.spec_notify(a));
    }
}

/// Hook ordering: two hooks registered at one point run in registration
/// order — the list folds to the second applied after the first.
pub proof fn lemma_hook_order<Arg>(h1: Rewriter<Arg>, h2: Rewriter<Arg>, a: Arg)
    ensures
        fold_notify(seq![h1, h2], a) == h2.hook.spec_notify(h1.hook.spec_notify(a)),
{
    assert(seq![h1, h2] =~= seq![h1].push(h2));
    lemma_fold_notify_snoc(seq![h1], h2, a);
    assert(seq![h1] =~= Seq::<Rewriter<Arg>>::empty().push(h1));
    lemma_fold_notify_snoc(Seq::empty(), h1, a);
}

/// Runs every observer hook once, in registration order.
pub fn notify_all<Arg>(hooks: &Vec<Observer<Arg>>, arg: &Arg) {
    let n = hooks.len();
    let mut i: usize = 0;
    while i < n
        invariant
            n == hooks@.len(),
            0 <= i <= n,
        decreases n - i,
    {
        hooks[i].hook.notify(arg);
        i += 1;
    }
}

/// Runs every rewriting hook once, in registration order; the event ends
/// as the fold of the hooks over its starting value.
pub fn notify_all_mut<Arg>(hooks: &Vec<Rewriter<Arg>>, arg: &mut Arg)
    ensures
        *final(arg) == fold_notify(hooks@, *old(arg)),
{
    let n = hooks.len();
    let mut i: usize = 0;
    while i < n
        invariant
            n == hooks@.len(),
            0 <= i <= n,
            *arg == fold_notify(hooks@.take(i as int), *old(arg)),
        decreases n - i,
    {
        proof {
            lemma_fold_notify_snoc(hooks@.take(i as int), hooks@[i as int], *old(arg));
            assert(hooks@.take(i as int).push(hooks@[i as int]) =~= hooks@.take(i as int + 1));
        }
        hooks[i].hook.notify(arg);
        i += 1;
    }
    assert(hooks@.take(n as int) =~= hooks@);
}

/// The service's inner state: the store and the four ordered hook lists.
/// Hooks are registered once, at construction, through the builder
/// methods, and are immutable thereafter.
pub struct ServiceInner<Store> {
    store: Store,
    on_received: Vec<Observer<CommandRequest>>,
    on_executed: Vec<Observer<CommandResponse>>,
    on_before_send: Vec<Rewriter<CommandResponse>>,
    on_after_send: Vec<Observer<()>>,
}

impl<Store: Storage> ServiceInner<Store> {
    /// The backing store.
    pub closed spec fn spec_store(&self) -> Store {
        self.store
    }

    /// The hooks that observe each arriving request.
    pub closed spec fn received_hooks(&self) -> Seq<Observer<CommandRequest>> {
        self.on_received@
    }

    /// The hooks that observe each response right after dispatch.
    pub closed spec fn executed_hooks(&self) -> Seq<Observer<CommandResponse>> {
        self.on_executed@
    }

    /// The hooks that rewrite a response before it is sent.
    pub closed spec fn before_send_hooks(&self) -> Seq<Rewriter<CommandResponse>> {
        self.on_before_send@
    }

    /// The hooks that run once a response has been handed off.
    pub closed spec fn after_send_hooks(&self) -> Seq<Observer<()>> {
        self.on_after_send@
    }

    pub fn new(store: Store) -> (r: Self)
        ensures
            r.spec_store() == store,
            r.received_hooks().len() == 0,
            r.executed_hooks().len() == 0,
            r.before_send_hooks() == Seq::<Rewriter<CommandResponse>>::empty(),
            r.after_send_hooks().len() == 0,
    {
        let r = ServiceInner {
            store,
            on_received: Vec::new(),
            on_executed: Vec::new(),
            on_before_send: Vec::new(),
            on_after_send: Vec::new(),
        };
        proof {
            assert(r.before_send_hooks() =~= Seq::<Rewriter<CommandResponse>>::empty());
        }
        r
    }

    /// Registers a hook fired when a request arrives, before dispatch.
    pub fn fn_received(self, f: Box<dyn Notify<CommandRequest>>) -> (r: Self)
        ensures
            r.spec_store() == self.spec_store(),
            r.received_hooks() == self.received_hooks().push((Observer { hook: f })),
            r.executed_hooks() == self.executed_hooks(),
            r.before_send_hooks() == self.before_send_hooks(),
            r.after_send_hooks() == self.after_send_hooks(),
    {
        let mut s = self;
        s.on_received.push(Observer { hook: f });
        s
    }

    /// Registers a hook fired with the response right after dispatch.
    pub fn fn_executed(self, f: Box<dyn Notify<CommandResponse>>) -> (r: Self)
        ensures
            r.spec_store() == self.spec_store(),
            r.received_hooks() == self.received_hooks(),
            r.executed_hooks() == self.executed_hooks().push((Observer { hook: f })),
            r.before_send_hooks() == self.before_send_hooks(),
            r.after_send_hooks() == self.after_send_hooks(),
    {
        let mut s = self;
        s.on_executed.push(Observer { hook: f });
        s
    }

    /// Registers a hook allowed to rewrite the response before it is
    /// sent; it runs after every hook registered earlier.
    pub fn fn_before_send(self, f: Box<dyn NotifyMut<CommandResponse>>) -> (r: Self)
        ensures
            r.spec_store() == self.spec_store(),
            r.received_hooks() == self.received_hooks(),
            r.executed_hooks() == self.executed_hooks(),
            r.before_send_hooks() == self.before_send_hooks().push((Rewriter { hook: f })),
            r.after_send_hooks() == self.after_send_hooks(),
    {
        let mut s = self;
        s.on_before_send.push(Rewriter { hook: f });
        s
    }

    /// Registers a hook fired after the response has been handed off;
    /// the caller that performs the send runs these.
    pub fn fn_after_send(self, f: Box<dyn Notify<()>>) -> (r: Self)
        ensures
            r.spec_store() == self.spec_store(),
            r.received_hooks() == self.received_hooks(),
            r.executed_hooks() == self.executed_hooks(),
            r.before_send_hooks() == self.before_send_hooks(),
            r.after_send_hooks() == self.after_send_hooks().push((Observer { hook: f })),
    {
        let mut s = self;
        s.on_after_send.push(Observer { hook: f });
        s
    }

    /// Wraps the finished inner state into a service.
    pub fn into_service(self) -> (r: Service<Store>)
        ensures
            r.spec_store() == self.spec_store(),
            r.received_hooks() == self.received_hooks(),
            r.executed_hooks() == self.executed_hooks(),
            r.before_send_hooks() == self.before_send_hooks(),
            r.after_send_hooks() == self.after_send_hooks(),
    {
        Service { inner: self }
    }
}

/// The service: executes requests against its store, with the hooks
/// around each execution.
pub struct Service<Store = MemTable> {
    inner: ServiceInner<Store>,
}

impl<Store: Storage> Service<Store> {
    /// The backing store.
    pub closed spec fn spec_store(&self) -> Store {
        self.inner.store
    }

    /// The hooks that observe each arriving request.
    pub closed spec fn received_hooks(&self) -> Seq<Observer<CommandRequest>> {
        self.inner.on_received@
    }

    /// The hooks that observe each response right after dispatch.
    pub closed spec fn executed_hooks(&self) -> Seq<Observer<CommandResponse>> {
        self.inner.on_executed@
    }

    /// The hooks that rewrite a response before it is sent.
    pub closed spec fn before_send_hooks(&self) -> Seq<Rewriter<CommandResponse>> {
        self.inner.on_before_send@
    }

    /// The hooks that run once a response has been handed off.
    pub closed spec fn after_send_hooks(&self) -> Seq<Observer<()>> {
        self.inner.on_after_send@
    }

    /// The service's invariant: its store's.
    pub open spec fn inv(&self) -> bool {
        self.spec_store().inv()
    }

    /// Runs the after-send hooks, in registration order; the caller
    /// invokes this once the response has been handed off.
    pub fn after_send(&self) {
        notify_all(&self.inner.on_after_send, &());
    }

    /// Executes one request: the matching handler runs against the
    /// store, then the before-send hooks rewrite the response in
    /// registration order. Never fails: every internal failure is a
    /// response, not an error.
    pub fn execute(&mut self, cmd: CommandRequest) -> (r: CommandResponse)
        requires
            old(self).inv(),
        ensures
            final(self).inv(),
            final(self).spec_store().exact() == old(self).spec_store().exact(),
            final(self).received_hooks() == old(self).received_hooks(),
            final(self).executed_hooks() == old(self).executed_hooks(),
            final(self).before_send_hooks() == old(self).before_send_hooks(),
            final(self).after_send_hooks() == old(self).after_send_hooks(),
            exists|mid: CommandResponse|
                {
                    &&& #[trigger] dispatch_post(
                        cmd,
                        old(self).spec_store().contents(),
                        final(self).spec_store().contents(),
                        mid@,
                        old(self).spec_store().exact(),
                    )
                    &&& r == fold_notify(old(self).before_send_hooks(), mid)
                },
    {
        notify_all(&self.inner.on_received, &cmd);
        let mut res = dispatch(cmd, &mut self.inner.store);
        let ghost mid = res;
        notify_all(&self.inner.on_executed, &res);
        notify_all_mut(&self.inner.on_before_send, &mut res);
        proof {
            assert(dispatch_post(
                cmd,
                old(self).spec_store().contents(),
                self.spec_store().contents(),
                mid@,
                old(self).spec_store().exact(),
            ));
            assert(res == fold_notify(old(self).before_send_hooks(), mid));
        }
        res
    }
}

} // verus!
