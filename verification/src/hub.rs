//! The HTTP hub: which worker answers which request, and with what reply.

use vstd::prelude::*;
use vstd::string::StringExecFns;
use vstd::utf8::*;

use crate::backing;
use crate::config::{ConfigView, SlotBusConfig};
use crate::error::SlotBusError;
use crate::routes;
use crate::slots;
use crate::table::Table;
use crate::text;
use crate::transport;
use crate::transport::Response;
use crate::types;
use crate::types::RequestMeta;

verus! {

// ---- Wire types --------------------------------------------------------------

/// Worker registration request (`POST /internal/register`).
#[derive(Clone, Debug)]
pub struct RegisterRequest {
    /// Worker name (e.g., "tts", "api").
    pub name: String,
    /// Routes this worker handles.
    pub routes: Vec<RouteRegistration>,
}

/// A single route the worker can handle.
#[derive(Clone, Debug)]
pub struct RouteRegistration {
    /// HTTP method (GET, POST, PUT, DELETE, PATCH).
    pub method: String,
    /// Path pattern with `{param}` placeholders.
    pub path: String,
}

/// Registration response.
#[derive(Clone, Debug)]
pub struct RegisterResponse {
    /// Assigned worker ID.
    pub worker_id: String,
    /// SHM control region name.
    pub shm_name: String,
}

/// Worker event pushed via `POST /internal/emit`.
#[derive(Clone, Debug)]
pub struct WorkerEvent {
    /// Source worker name.
    pub source: String,
    /// Event type string.
    pub event_type: String,
    /// JSON-serialized event data.
    pub data: String,
}

/// Hub event broadcast via SSE.
#[derive(Clone, Debug)]
pub struct HubEvent {
    /// Source worker name.
    pub source: String,
    /// Event type.
    pub event_type: String,
    /// JSON-serialized event data.
    pub data: String,
}

/// Response from `GET /health`.
#[derive(Clone, Debug)]
pub struct HealthResponse {
    pub ok: bool,
    pub workers: Vec<WorkerInfo>,
}

/// Summary of a connected worker.
#[derive(Clone, Debug)]
pub struct WorkerInfo {
    pub name: String,
    pub worker_id: String,
    pub route_count: usize,
    pub transport: String,
}

/// Hub-level configuration.
#[derive(Clone, Copy, Debug)]
pub struct HubConfig {
    pub timeout_secs: u64,
    pub num_slots: usize,
    pub region_size: usize,
    pub instrumentation: bool,
    /// Whether the operating system limits the length of names, as macOS does.
    pub limited_names: bool,
}

/// The event that the hub broadcasts for a worker's event.
pub fn hub_event(event: WorkerEvent) -> (r: HubEvent)
    ensures
        r.source@ == event.source@,
        r.event_type@ == event.event_type@,
        r.data@ == event.data@,
{
    HubEvent { source: event.source, event_type: event.event_type, data: event.data }
}

// ---- Fresh ids ---------------------------------------------------------------

/// `c` is a lower-case hexadecimal digit.
pub open spec fn is_hex_digit(c: char) -> bool {
    '0' <= c <= '9' || 'a' <= c <= 'f'
}

/// `s` is a random UUID in its usual form: groups of 8, 4, 4, 4 and 12
/// hexadecimal digits with hyphens between them, version 4.
pub open spec fn is_uuid(s: Seq<char>) -> bool {
    &&& s.len() == 36
    &&& forall|i: int|
        0 <= i < 36 ==> (if i == 8 || i == 13 || i == 18 || i == 23 {
            #[trigger] s[i] == '-'
        } else {
            is_hex_digit(s[i])
        })
    &&& s[14] == '4'
    &&& s[19] == '8' || s[19] == '9' || s[19] == 'a' || s[19] == 'b'
}

/// `uuid::Uuid::new_v4`, written out: whatever number came up, the text is a
/// version 4 UUID in its usual form.
#[verifier::external_body]
fn fresh_id() -> (r: String)
    ensures
        is_uuid(r@),
{
    uuid::Uuid::new_v4().to_string()
}

/// A fresh id fits in the id field of a slot and is read back from it.
pub proof fn fresh_ids_fit_a_slot(id: Seq<char>)
    requires
        is_uuid(id),
    ensures
        slots::id_fits(id),
{
    assert forall|i: int| 0 <= i < id.len() implies (#[trigger] id[i]) as nat <= 127 by {
        assert(i == 8 || i == 13 || i == 18 || i == 23 || is_hex_digit(id[i]));
    }
    assert(is_ascii_chars(id));
    is_ascii_chars_encode_utf8(id);
}

// ---- State -------------------------------------------------------------------

/// What the hub knows of a worker. `B` is its bus.
pub struct WorkerRecord<B> {
    pub name: String,
    pub routes: Vec<RouteRegistration>,
    /// OS-level name of the bus's region.
    pub region_name: String,
    pub bus: B,
}

/// Routes as `(method, pattern, worker id)`.
pub type RouteView = (Seq<char>, Seq<char>, Seq<char>);

/// Entries of the route table as character sequences.
pub open spec fn route_views(table: Seq<(String, String, String)>) -> Seq<RouteView> {
    table.map_values(|r: (String, String, String)| (r.0@, r.1@, r.2@))
}

/// The routes that a registration asks for, for a worker id.
pub open spec fn registered_routes(routes: Seq<RouteRegistration>, worker_id: Seq<char>) -> Seq<
    RouteView,
> {
    routes.map_values(|r: RouteRegistration| (r.method@, r.path@, worker_id))
}

/// The routes of all workers but those in `gone`.
pub open spec fn routes_without(routes: Seq<RouteView>, gone: Set<Seq<char>>) -> Seq<RouteView>
    decreases routes.len(),
{
    if routes.len() == 0 {
        Seq::empty()
    } else {
        let before = routes_without(routes.drop_last(), gone);
        if gone.contains(routes.last().2) {
            before
        } else {
            before.push(routes.last())
        }
    }
}

/// Registered workers and their routes.
pub struct HubState<B> {
    workers: Table<WorkerRecord<B>>,
    route_table: Vec<(String, String, String)>,
    config: HubConfig,
}

/// A [`HubState`] as a mathematical value.
pub struct HubView<B> {
    pub workers: Map<Seq<char>, WorkerRecord<B>>,
    pub routes: Seq<RouteView>,
    pub config: HubConfig,
}

impl<B> View for HubState<B> {
    type V = HubView<B>;

    closed spec fn view(&self) -> HubView<B> {
        HubView {
            workers: self.workers@,
            routes: route_views(self.route_table@),
            config: self.config,
        }
    }
}

impl<B> HubView<B> {
    /// The ids of the workers with the given name.
    pub open spec fn ids_of(self, name: Seq<char>) -> Set<Seq<char>> {
        Set::new(|id: Seq<char>| self.workers.contains_key(id) && self.workers[id].name@ == name)
    }

    /// The hub after all workers with the given name, and their routes, have
    /// been forgotten.
    pub open spec fn without(self, name: Seq<char>) -> HubView<B> {
        HubView {
            workers: self.workers.remove_keys(self.ids_of(name)),
            routes: routes_without(self.routes, self.ids_of(name)),
            config: self.config,
        }
    }

    /// The hub after a worker and its routes have been added.
    pub open spec fn with_worker(self, worker_id: Seq<char>, record: WorkerRecord<B>) -> HubView<
        B,
    > {
        HubView {
            workers: self.workers.insert(worker_id, record),
            routes: self.routes + registered_routes(record.routes@, worker_id),
            config: self.config,
        }
    }

    /// Every route leads to a worker that the hub knows.
    pub open spec fn routes_lead_somewhere(self) -> bool {
        forall|i: int|
            0 <= i < self.routes.len() ==> self.workers.contains_key((#[trigger] self.routes[i]).2)
    }

    /// The bus configuration for a worker of the given name.
    pub open spec fn bus_config(self, name: Seq<char>) -> ConfigView {
        ConfigView {
            name,
            prefix: "hub"@,
            num_slots: if self.config.num_slots < 1 {
                1
            } else if self.config.num_slots > 256 {
                256
            } else {
                self.config.num_slots as nat
            },
            region_size: self.config.region_size as nat,
            instrumentation: self.config.instrumentation,
            limited_names: self.config.limited_names,
            ..ConfigView::default_view()
        }
    }
}

proof fn lemma_routes_without_twice(
    routes: Seq<RouteView>,
    gone1: Set<Seq<char>>,
    gone2: Set<Seq<char>>,
)
    ensures
        routes_without(routes_without(routes, gone1), gone2) == routes_without(
            routes,
            gone1.union(gone2),
        ),
    decreases routes.len(),
{
    if routes.len() > 0 {
        lemma_routes_without_twice(routes.drop_last(), gone1, gone2);
        let before = routes_without(routes.drop_last(), gone1);
        if !gone1.contains(routes.last().2) {
            assert(before.push(routes.last()).drop_last() =~= before);
        }
    }
}

proof fn lemma_routes_without_none(routes: Seq<RouteView>, gone: Set<Seq<char>>)
    requires
        forall|id: Seq<char>| !gone.contains(id),
    ensures
        routes_without(routes, gone) == routes,
    decreases routes.len(),
{
    if routes.len() > 0 {
        lemma_routes_without_none(routes.drop_last(), gone);
        assert(routes.drop_last().push(routes.last()) =~= routes);
    }
}

/// Every route that is left was there before and is not one of those to go.
proof fn lemma_routes_left(routes: Seq<RouteView>, gone: Set<Seq<char>>)
    ensures
        forall|i: int|
            0 <= i < routes_without(routes, gone).len() ==> {
                &&& !gone.contains((#[trigger] routes_without(routes, gone)[i]).2)
                &&& routes.contains(routes_without(routes, gone)[i])
            },
    decreases routes.len(),
{
    if routes.len() > 0 {
        lemma_routes_left(routes.drop_last(), gone);
        let left = routes_without(routes, gone);
        let before = routes_without(routes.drop_last(), gone);
        assert forall|i: int| 0 <= i < left.len() implies {
            &&& !gone.contains((#[trigger] left[i]).2)
            &&& routes.contains(left[i])
        } by {
            if i < before.len() {
                assert(left[i] == before[i]);
                let k = choose|k: int|
                    0 <= k < routes.drop_last().len() && routes.drop_last()[k] == before[i];
                assert(routes[k] == left[i]);
            } else {
                assert(routes[routes.len() - 1] == left[i]);
            }
        }
    }
}

/// Removes the routes of one worker.
fn drop_routes(table: &mut Vec<(String, String, String)>, worker_id: &str)
    ensures
        route_views(final(table)@) == routes_without(
            route_views(old(table)@),
            set![worker_id@],
        ),
{
    let ghost all = route_views(table@);
    let mut kept: Vec<(String, String, String)> = Vec::new();
    let mut i: usize = 0;
    while i < table.len()
        invariant
            i <= table@.len(),
            all == route_views(table@),
            route_views(kept@) == routes_without(all.take(i as int), set![worker_id@]),
        decreases table@.len() - i,
    {
        let ghost before = route_views(kept@);
        if !text::same_text(table[i].2.as_str(), worker_id) {
            kept.push((table[i].0.clone(), table[i].1.clone(), table[i].2.clone()));
            assert(route_views(kept@) =~= before.push(all[i as int]));
        }
        i = i + 1;
        assert(all.take(i as int).drop_last() =~= all.take(i - 1));
    }
    assert(all.take(all.len() as int) =~= all);
    *table = kept;
}

impl<B> HubState<B> {
    /// No worker id occurs twice.
    pub closed spec fn wf(&self) -> bool {
        self.workers.wf()
    }

    /// A hub without workers.
    pub fn new(config: HubConfig) -> (r: Self)
        ensures
            r.wf(),
            r@ == (HubView::<B> { workers: Map::empty(), routes: Seq::empty(), config }),
    {
        let r = HubState { workers: Table::new(), route_table: Vec::new(), config };
        assert(r@.routes =~= Seq::empty());
        r
    }

    /// Forgets all workers with the given name, and their routes.
    fn remove_stale(&mut self, name: &str)
        requires
            old(self).wf(),
        ensures
            final(self).wf(),
            final(self)@ == old(self)@.without(name@),
    {
        let ghost before = self@;
        let mut i: usize = 0;
        proof {
            lemma_routes_without_none(
                before.routes,
                before.workers.dom().difference(before.workers.dom()),
            );
        }
        while i < self.workers.len()
            invariant
                self.wf(),
                i <= self.workers.list().len(),
                self@.config == before.config,
                self@.workers.submap_of(before.workers),
                forall|id: Seq<char>|
                    before.workers.contains_key(id) && !(#[trigger] self@.workers.contains_key(id))
                        ==> before.workers[id].name@ == name@,
                self@.routes == routes_without(
                    before.routes,
                    before.workers.dom().difference(self@.workers.dom()),
                ),
                forall|k: int|
                    0 <= k < i ==> (#[trigger] self.workers.list()[k]).1.name@ != name@,
            decreases self.workers.list().len() - i,
        {
            proof {
                self.workers.lemma_listed(i as int);
            }
            if text::same_text(self.workers.value(i).name.as_str(), name) {
                let id: String = self.workers.key(i).to_owned();
                let ghost current = self@;
                let ghost gone = before.workers.dom().difference(current.workers.dom());
                self.workers.remove(id.as_str());
                drop_routes(&mut self.route_table, id.as_str());
                proof {
                    lemma_routes_without_twice(before.routes, gone, set![id@]);
                    assert(gone.union(set![id@]) =~= before.workers.dom().difference(
                        self@.workers.dom(),
                    ));
                }
            } else {
                i = i + 1;
            }
        }
        proof {
            assert forall|id: Seq<char>| #[trigger] self@.workers.contains_key(id) implies
                before.workers[id].name@ != name@ by {
                let k = self.workers.lemma_in_list(id);
            }
            let gone = before.ids_of(name@);
            assert(before.workers.dom().difference(self@.workers.dom()) =~= gone);
            assert(self@.workers =~= before.workers.remove_keys(gone));
        }
    }

    /// The bus configuration for a worker of the given name.
    fn bus_config(&self, name: &str) -> (r: SlotBusConfig)
        requires
            name@.len() > 0,
        ensures
            r@ == self@.bus_config(name@),
    {
        SlotBusConfig::builder().name(name).prefix("hub").num_slots(
            self.config.num_slots,
        ).region_size(self.config.region_size).instrumentation(
            self.config.instrumentation,
        ).limited_names(self.config.limited_names).build()
    }

    /// Registers a worker under the given id.
    ///
    /// A name that is not a plain file name, such as one that walks up with
    /// `..`, is refused before anything else happens: region names are made of
    /// it.
    ///
    /// Workers of the same name, and their routes, are forgotten first. Then
    /// `create` makes a bus; where it fails, the worker is not added.
    pub fn register_as<C: Fn(&SlotBusConfig) -> Result<B, SlotBusError>>(
        &mut self,
        worker_id: String,
        req: RegisterRequest,
        create: &C,
    ) -> (r: Result<RegisterResponse, Reply>)
        requires
            old(self).wf(),
            req.name@.len() > 0,
            forall|c: &SlotBusConfig|
                backing::is_file_name(req.name@) && c@ == old(self)@.bus_config(req.name@)
                    ==> #[trigger] create.requires((c,)),
        ensures
            final(self).wf(),
            old(self)@.registered(final(self)@, worker_id@, req, *create, r),
    {
        let ghost before = self@;
        let ghost name = req.name@;
        if !backing::is_plain_name(req.name.as_str()) {
            let message = String::from_str("Invalid worker name: ").concat(req.name.as_str());
            return Err(Reply::Text { status: 400, message });
        }
        self.remove_stale(req.name.as_str());
        let ghost cleared = self@;
        let config = self.bus_config(req.name.as_str());
        let bus = match create(&config) {
            Ok(bus) => bus,
            Err(e) => {
                assert(bus_created(*create, before.bus_config(name), Err(e)));
                let message = String::from_str("Failed to create SHM: ").concat(
                    e.message().as_str(),
                );
                return Err(Reply::Text { status: 500, message });
            },
        };
        let shm_name = config.region_name();
        let mut i: usize = 0;
        let ghost ids = worker_id@;
        let ghost added = registered_routes(req.routes@, ids);
        while i < req.routes.len()
            invariant
                self.wf(),
                i <= req.routes@.len(),
                ids == worker_id@,
                added == registered_routes(req.routes@, ids),
                self@.workers == cleared.workers,
                self@.config == cleared.config,
                self@.routes == cleared.routes + added.take(i as int),
            decreases req.routes@.len() - i,
        {
            let ghost current = self@.routes;
            self.route_table.push(
                (req.routes[i].method.clone(), req.routes[i].path.clone(), worker_id.clone()),
            );
            i = i + 1;
            assert(self@.routes =~= current.push(added[i - 1]));
            assert(self@.routes =~= cleared.routes + added.take(i as int));
        }
        let record = WorkerRecord {
            name: req.name,
            routes: req.routes,
            region_name: shm_name.clone(),
            bus,
        };
        let ghost kept = record;
        self.workers.insert(worker_id.clone(), record);
        assert(added.take(added.len() as int) =~= added);
        assert(self@ == cleared.with_worker(ids, kept));
        assert(bus_created(*create, before.bus_config(name), Ok(kept.bus)));
        Ok(RegisterResponse { worker_id, shm_name })
    }

    /// Registers a worker under a fresh id.
    pub fn register_worker<C: Fn(&SlotBusConfig) -> Result<B, SlotBusError>>(
        &mut self,
        req: RegisterRequest,
        create: &C,
    ) -> (r: Result<RegisterResponse, Reply>)
        requires
            old(self).wf(),
            req.name@.len() > 0,
            forall|c: &SlotBusConfig|
                backing::is_file_name(req.name@) && c@ == old(self)@.bus_config(req.name@)
                    ==> #[trigger] create.requires((c,)),
        ensures
            final(self).wf(),
            exists|worker_id: Seq<char>|
                {
                    &&& is_uuid(worker_id)
                    &&& #[trigger] old(self)@.registered(
                        final(self)@,
                        worker_id,
                        req,
                        *create,
                        r,
                    )
                },
    {
        let worker_id = fresh_id();
        self.register_as(worker_id, req, create)
    }
}

/// A reply to an HTTP request.
#[derive(Debug)]
pub enum Reply {
    /// A message of the hub itself.
    Text { status: u16, message: String },
    /// A worker's response.
    Full {
        status: u16,
        content_type: String,
        headers: Vec<(String, String)>,
        body: Vec<u8>,
    },
}

/// Making a bus may end like this.
pub open spec fn bus_created<B, C: Fn(&SlotBusConfig) -> Result<B, SlotBusError>>(
    create: C,
    config: ConfigView,
    res: Result<B, SlotBusError>,
) -> bool {
    exists|c: &SlotBusConfig| c@ == config && #[trigger] create.ensures((c,), res)
}

impl<B> HubView<B> {
    /// How registering a worker may end. A name that is not a plain file name is
    /// refused and changes nothing.
    pub open spec fn registered<C: Fn(&SlotBusConfig) -> Result<B, SlotBusError>>(
        self,
        after: HubView<B>,
        worker_id: Seq<char>,
        req: RegisterRequest,
        create: C,
        res: Result<RegisterResponse, Reply>,
    ) -> bool {
        if !backing::is_file_name(req.name@) {
            &&& after == self
            &&& res matches Err(Reply::Text { status, message })
            &&& status == 400
            &&& message@ == "Invalid worker name: "@ + req.name@
        } else {
            self.registered_plainly(after, worker_id, req, create, res)
        }
    }

    /// How registering a worker with a plain name may end.
    pub open spec fn registered_plainly<C: Fn(&SlotBusConfig) -> Result<B, SlotBusError>>(
        self,
        after: HubView<B>,
        worker_id: Seq<char>,
        req: RegisterRequest,
        create: C,
        res: Result<RegisterResponse, Reply>,
    ) -> bool {
        let cleared = self.without(req.name@);
        let config = self.bus_config(req.name@);
        match res {
            Ok(response) => {
                &&& response.worker_id@ == worker_id
                &&& response.shm_name@ == config.region_name()
                &&& exists|record: WorkerRecord<B>|
                    {
                        &&& after == #[trigger] cleared.with_worker(worker_id, record)
                        &&& record.name@ == req.name@
                        &&& record.routes@ == req.routes@
                        &&& record.region_name@ == config.region_name()
                        &&& bus_created(create, config, Ok(record.bus))
                    }
            },
            Err(reply) => {
                &&& after == cleared
                &&& exists|e: SlotBusError|
                    {
                        &&& #[trigger] bus_created::<B, C>(create, config, Err(e))
                        &&& reply matches Reply::Text { status, message }
                        &&& status == 500
                        &&& message@ == "Failed to create SHM: "@ + e@.sentence()
                    }
            },
        }
    }
}

// ---- Health ------------------------------------------------------------------

impl<B> HubState<B> {
    /// The known workers in the order in which they are listed.
    pub closed spec fn listed(&self) -> Seq<(Seq<char>, WorkerRecord<B>)> {
        self.workers.list()
    }

    /// Every known worker is listed once.
    pub proof fn lemma_listed(&self)
        requires
            self.wf(),
        ensures
            crate::table::keys_differ(self.listed()),
            self@.workers == crate::table::entry_map(self.listed()),
    {
    }

    /// A summary of the known workers.
    pub fn health(&self) -> (r: HealthResponse)
        requires
            self.wf(),
        ensures
            r.ok,
            r.workers@.len() == self.listed().len(),
            forall|i: int|
                0 <= i < r.workers@.len() ==> {
                    let (id, record) = self.listed()[i];
                    &&& (#[trigger] r.workers@[i]).name@ == record.name@
                    &&& r.workers@[i].worker_id@ == id
                    &&& r.workers@[i].route_count == record.routes@.len()
                    &&& r.workers@[i].transport@ == "shm:"@ + record.region_name@
                },
    {
        let mut workers: Vec<WorkerInfo> = Vec::new();
        let mut i: usize = 0;
        while i < self.workers.len()
            invariant
                i <= self.workers.list().len(),
                workers@.len() == i,
                forall|k: int|
                    0 <= k < i ==> {
                        let (id, record) = self.listed()[k];
                        &&& (#[trigger] workers@[k]).name@ == record.name@
                        &&& workers@[k].worker_id@ == id
                        &&& workers@[k].route_count == record.routes@.len()
                        &&& workers@[k].transport@ == "shm:"@ + record.region_name@
                    },
            decreases self.workers.list().len() - i,
        {
            let record = self.workers.value(i);
            workers.push(
                WorkerInfo {
                    name: record.name.clone(),
                    worker_id: self.workers.key(i).to_owned(),
                    route_count: record.routes.len(),
                    transport: String::from_str("shm:").concat(record.region_name.as_str()),
                },
            );
            i = i + 1;
        }
        HealthResponse { ok: true, workers }
    }
}

// ---- Proxying ----------------------------------------------------------------

/// The largest request body that the hub takes.
pub const MAX_BODY_BYTES: usize = 10_485_760;

impl<B> HubView<B> {
    /// A route fits a request.
    pub open spec fn fits(self, i: int, method: Seq<char>, path: Seq<char>) -> bool {
        self.routes[i].0 == method && routes::route_matches(self.routes[i].1, path)
    }

    /// `i` is the first route that fits a request.
    pub open spec fn first_fit(self, i: int, method: Seq<char>, path: Seq<char>) -> bool {
        &&& 0 <= i < self.routes.len()
        &&& self.fits(i, method, path)
        &&& forall|k: int| 0 <= k < i ==> !#[trigger] self.fits(k, method, path)
    }
}

/// Headers whose value could be read as text, in order.
pub open spec fn readable(headers: Seq<(String, Option<String>)>) -> Seq<(Seq<char>, Seq<char>)>
    decreases headers.len(),
{
    if headers.len() == 0 {
        Seq::empty()
    } else {
        let before = readable(headers.drop_last());
        match headers.last().1 {
            Some(value) => before.push((headers.last().0@, value@)),
            None => before,
        }
    }
}

/// Drops the headers whose value could not be read as text.
pub fn readable_headers(headers: Vec<(String, Option<String>)>) -> (r: Vec<(String, String)>)
    ensures
        types::pairs(r@) == readable(headers@),
{
    let mut r: Vec<(String, String)> = Vec::new();
    let mut i: usize = 0;
    assert(types::pairs(r@) =~= Seq::empty());
    while i < headers.len()
        invariant
            i <= headers@.len(),
            types::pairs(r@) == readable(headers@.take(i as int)),
        decreases headers@.len() - i,
    {
        let ghost before = types::pairs(r@);
        assert(headers@.take(i + 1).drop_last() =~= headers@.take(i as int));
        if let Some(value) = &headers[i].1 {
            r.push((headers[i].0.clone(), value.clone()));
            assert(types::pairs(r@) =~= before.push((headers@[i as int].0@, value@)));
        }
        i = i + 1;
    }
    assert(headers@.take(headers@.len() as int) =~= headers@);
    r
}

/// The entries of a table of texts as pairs: no key twice, and each key with
/// the text that the table holds for it.
fn table_pairs(table: &Table<String>) -> (r: Vec<(String, String)>)
    requires
        table.wf(),
    ensures
        crate::table::keys_differ(types::pairs(r@)),
        forall|key: Seq<char>| #[trigger]
            transport::last_value(types::pairs(r@), key) == transport::text_for(table@, key),
{
    let mut r: Vec<(String, String)> = Vec::new();
    let mut i: usize = 0;
    let ghost all = table.list().map_values(|e: (Seq<char>, String)| (e.0, e.1@));
    while i < table.len()
        invariant
            i <= table.list().len(),
            all == table.list().map_values(|e: (Seq<char>, String)| (e.0, e.1@)),
            types::pairs(r@) == all.take(i as int),
        decreases table.list().len() - i,
    {
        let ghost before = types::pairs(r@);
        r.push((table.key(i).to_owned(), table.value(i).clone()));
        assert(types::pairs(r@) =~= before.push(all[i as int]));
        i = i + 1;
        assert(all.take(i as int) =~= all.take(i - 1).push(all[i - 1]));
    }
    assert(all.take(all.len() as int) =~= all);
    proof {
        assert forall|key: Seq<char>| #[trigger]
            transport::last_value(all, key) == transport::text_for(table@, key) by {
            if table@.contains_key(key) {
                let k = table.lemma_in_list(key);
                lemma_last_value_of_unique(all, k);
            } else {
                lemma_last_value_of_absent(all, key);
                assert forall|k: int| 0 <= k < all.len() implies (#[trigger] all[k]).0 != key by {
                    table.lemma_listed(k);
                }
            }
        }
    }
    r
}

proof fn lemma_last_value_of_unique(pairs: Seq<(Seq<char>, Seq<char>)>, k: int)
    requires
        crate::table::keys_differ(pairs),
        0 <= k < pairs.len(),
    ensures
        transport::last_value(pairs, pairs[k].0) == Some(pairs[k].1),
    decreases pairs.len(),
{
    if k < pairs.len() - 1 {
        assert(pairs.drop_last()[k] == pairs[k]);
        lemma_last_value_of_unique(pairs.drop_last(), k);
    }
}

proof fn lemma_last_value_of_absent(pairs: Seq<(Seq<char>, Seq<char>)>, key: Seq<char>)
    ensures
        (forall|k: int| 0 <= k < pairs.len() ==> (#[trigger] pairs[k]).0 != key)
            ==> transport::last_value(pairs, key) is None,
    decreases pairs.len(),
{
    if pairs.len() > 0 {
        lemma_last_value_of_absent(pairs.drop_last(), key);
        assert(forall|k: int|
            0 <= k < pairs.drop_last().len() ==> (#[trigger] pairs.drop_last()[k]) == pairs[k]);
    }
}

/// What the hub does with a request.
#[derive(Debug)]
pub enum Plan {
    /// Answer it at once.
    Reject(Reply),
    /// Dispatch it, under a fresh id, to a worker.
    Forward { worker_id: String, req_id: String, meta: RequestMeta },
}

impl<B> HubView<B> {
    /// What the hub may do with a request.
    pub open spec fn planned(
        self,
        method: Seq<char>,
        path: Seq<char>,
        query: Option<Seq<char>>,
        headers: Seq<(Seq<char>, Seq<char>)>,
        plan: Plan,
    ) -> bool {
        ||| {
            &&& forall|k: int|
                0 <= k < self.routes.len() ==> !#[trigger] self.fits(k, method, path)
            &&& plan matches Plan::Reject(Reply::Text { status, message })
            &&& status == 502
            &&& message@ == "No worker registered for "@ + method + " "@ + path
        }
        ||| exists|i: int| #[trigger]
            self.first_fit(i, method, path) && self.planned_for(
                i,
                path,
                query,
                headers,
                plan,
            )
    }

    /// What the hub does with a request whose first fitting route is the one
    /// at `i`.
    pub open spec fn planned_for(
        self,
        i: int,
        path: Seq<char>,
        query: Option<Seq<char>>,
        headers: Seq<(Seq<char>, Seq<char>)>,
        plan: Plan,
    ) -> bool {
        let (_, pattern, id) = self.routes[i];
        if self.workers.contains_key(id) {
            &&& plan matches Plan::Forward { worker_id, req_id, meta }
            &&& worker_id@ == id
            &&& is_uuid(req_id@)
            &&& meta@.path == path
            &&& meta@.route_pattern == pattern
            &&& crate::table::keys_differ(meta@.path_params)
            &&& forall|key: Seq<char>| #[trigger]
                transport::last_value(meta@.path_params, key) == transport::last_value(
                    routes::route_captures(pattern, path),
                    key,
                )
            &&& meta@.query == query
            &&& meta@.headers == headers
        } else {
            &&& plan matches Plan::Reject(Reply::Text { status, message })
            &&& status == 502
            &&& message@ == "Worker "@ + id + " not found"@
        }
    }
}

impl<B> HubState<B> {
    /// The bus of a worker.
    pub fn bus(&self, worker_id: &str) -> (r: Option<&B>)
        requires
            self.wf(),
        ensures
            match r {
                Some(bus) => self@.workers.contains_key(worker_id@) && *bus
                    == self@.workers[worker_id@].bus,
                None => !self@.workers.contains_key(worker_id@),
            },
    {
        match self.workers.get(worker_id) {
            Some(record) => Some(&record.bus),
            None => None,
        }
    }

    /// The first route that fits a request, with what its placeholders stand
    /// for.
    fn find_route(&self, method: &str, path: &str) -> (r: Option<(usize, Table<String>)>)
        ensures
            match r {
                Some((i, params)) => {
                    &&& self@.first_fit(i as int, method@, path@)
                    &&& params.wf()
                    &&& forall|key: Seq<char>| #[trigger]
                        transport::text_for(params@, key) == transport::last_value(
                            routes::route_captures(self@.routes[i as int].1, path@),
                            key,
                        )
                },
                None => forall|k: int|
                    0 <= k < self@.routes.len() ==> !#[trigger] self@.fits(k, method@, path@),
            },
    {
        let mut i: usize = 0;
        while i < self.route_table.len()
            invariant
                i <= self.route_table@.len() == self@.routes.len(),
                forall|k: int| 0 <= k < i ==> !#[trigger] self@.fits(k, method@, path@),
            decreases self.route_table@.len() - i,
        {
            assert(self@.routes[i as int] == (
                self.route_table@[i as int].0@,
                self.route_table@[i as int].1@,
                self.route_table@[i as int].2@,
            ));
            if text::same_text(self.route_table[i].0.as_str(), method) {
                if let Some(params) = routes::match_route(self.route_table[i].1.as_str(), path) {
                    return Some((i, params));
                }
            }
            i = i + 1;
        }
        None
    }

    /// Decides what to do with a request: the first route that fits its method
    /// and path tells the worker. Headers without a readable value are dropped.
    pub fn plan_request(
        &self,
        method: &str,
        path: &str,
        query: Option<String>,
        headers: Vec<(String, Option<String>)>,
    ) -> (r: Plan)
        requires
            self.wf(),
        ensures
            self@.planned(method@, path@, types::optional(query), readable(headers@), r),
    {
        let (i, params) = match self.find_route(method, path) {
            Some(found) => found,
            None => {
                let message = String::from_str("No worker registered for ").concat(method).concat(
                    " ",
                ).concat(path);
                return Plan::Reject(Reply::Text { status: 502, message });
            },
        };
        assert(self@.routes[i as int] == (
            self.route_table@[i as int].0@,
            self.route_table@[i as int].1@,
            self.route_table@[i as int].2@,
        ));
        let worker_id = self.route_table[i].2.clone();
        if self.bus(worker_id.as_str()).is_none() {
            let message = String::from_str("Worker ").concat(worker_id.as_str()).concat(
                " not found",
            );
            return Plan::Reject(Reply::Text { status: 502, message });
        }
        let meta = RequestMeta {
            path: path.to_owned(),
            route_pattern: self.route_table[i].1.clone(),
            path_params: table_pairs(&params),
            query,
            headers: readable_headers(headers),
        };
        Plan::Forward { worker_id, req_id: fresh_id(), meta }
    }
}

/// What came of a request that the hub tried to answer.
#[derive(Debug)]
pub enum Outcome {
    /// The request's body could not be read, for the given reason.
    BodyUnreadable(String),
    /// The request could not be dispatched.
    DispatchFailed(SlotBusError),
    /// The worker responded.
    Answered(Response),
    /// The worker's side went away without a response.
    Dropped,
    /// No response came in time.
    TimedOut,
}

/// The status that a worker's status becomes in HTTP: itself where it has three
/// digits, 500 otherwise.
pub open spec fn http_status(status: u16) -> u16 {
    if 100 <= status <= 999 {
        status
    } else {
        500
    }
}

/// The hub's own answer to a request that no worker answered.
pub open spec fn failure_reply(outcome: Outcome, path: Seq<char>, timeout_secs: u64) -> (
    u16,
    Seq<char>,
) {
    match outcome {
        Outcome::BodyUnreadable(reason) => (400, "Failed to read request body: "@ + reason@),
        Outcome::DispatchFailed(e) => (502, "SHM dispatch failed: "@ + e@.sentence()),
        Outcome::Answered(_) => (200, Seq::empty()),
        Outcome::Dropped => (502, "Worker dropped the request"@),
        Outcome::TimedOut => (
            504,
            "Request to "@ + path + " timed out after "@ + text::decimal(timeout_secs as nat)
                + "s"@,
        ),
    }
}

/// The reply to a request.
pub fn reply_to(outcome: Outcome, path: &str, timeout_secs: u64) -> (r: Reply)
    ensures
        match outcome {
            Outcome::Answered(response) => {
                &&& r matches Reply::Full { status, content_type, headers, body }
                &&& status == http_status(response.status)
                &&& 100 <= response.status <= 999 ==> status == response.status
                &&& response.status < 100 || response.status > 999 ==> status == 500
                &&& content_type@ == response.content_type@
                &&& types::pairs(headers@) == types::pairs(response.headers@)
                &&& body@ == response.body@
            },
            _ => {
                let (code, sentence) = failure_reply(outcome, path@, timeout_secs);
                &&& r matches Reply::Text { status, message }
                &&& status == code
                &&& message@ == sentence
            },
        },
{
    match outcome {
        Outcome::BodyUnreadable(reason) => Reply::Text {
            status: 400,
            message: String::from_str("Failed to read request body: ").concat(reason.as_str()),
        },
        Outcome::DispatchFailed(e) => Reply::Text {
            status: 502,
            message: String::from_str("SHM dispatch failed: ").concat(e.message().as_str()),
        },
        Outcome::Answered(response) => Reply::Full {
            status: if 100 <= response.status && response.status <= 999 {
                response.status
            } else {
                500
            },
            content_type: response.content_type,
            headers: response.headers,
            body: response.body,
        },
        Outcome::Dropped => Reply::Text {
            status: 502,
            message: String::from_str("Worker dropped the request"),
        },
        Outcome::TimedOut => {
            let mut message = String::from_str("Request to ").concat(path).concat(
                " timed out after ",
            );
            text::push_decimal(&mut message, timeout_secs);
            message.append("s");
            Reply::Text { status: 504, message }
        },
    }
}

// ---- Registration over time --------------------------------------------------

/// A worker whose name has a separator in it, such as one that walks up with
/// `..`, is refused: the hub stays as it was.
pub proof fn traversing_names_are_not_registered<
    B,
    C: Fn(&SlotBusConfig) -> Result<B, SlotBusError>,
>(
    before: HubView<B>,
    after: HubView<B>,
    worker_id: Seq<char>,
    req: RegisterRequest,
    create: C,
    res: Result<RegisterResponse, Reply>,
    i: int,
)
    requires
        0 <= i < req.name@.len(),
        req.name@[i] == '/' || req.name@[i] == '\\',
        before.registered(after, worker_id, req, create, res),
    ensures
        res matches Err(Reply::Text { status, .. }) && status == 400,
        after == before,
{
}

/// A new hub's routes all lead somewhere: there are none.
pub proof fn new_hubs_routes_lead_somewhere<B>(config: HubConfig)
    ensures
        (HubView::<B> { workers: Map::empty(), routes: Seq::empty(), config }).routes_lead_somewhere(),
{
}

/// However a registration ends, every route that is left leads to a worker that
/// the hub knows.
pub proof fn registrations_leave_no_dangling_route<
    B,
    C: Fn(&SlotBusConfig) -> Result<B, SlotBusError>,
>(
    before: HubView<B>,
    after: HubView<B>,
    worker_id: Seq<char>,
    req: RegisterRequest,
    create: C,
    res: Result<RegisterResponse, Reply>,
)
    requires
        before.routes_lead_somewhere(),
        before.registered(after, worker_id, req, create, res),
    ensures
        after.routes_lead_somewhere(),
{
    let gone = before.ids_of(req.name@);
    let cleared = before.without(req.name@);
    lemma_routes_left(before.routes, gone);
    assert(cleared.routes_lead_somewhere()) by {
        assert forall|i: int| 0 <= i < cleared.routes.len() implies cleared.workers.contains_key(
            (#[trigger] cleared.routes[i]).2,
        ) by {
            let k = choose|k: int|
                0 <= k < before.routes.len() && before.routes[k] == cleared.routes[i];
            assert(before.workers.contains_key(before.routes[k].2));
        }
    }
    if let Ok(response) = res {
        let record = choose|record: WorkerRecord<B>|
            {
                &&& after == #[trigger] cleared.with_worker(worker_id, record)
                &&& record.name@ == req.name@
                &&& record.routes@ == req.routes@
                &&& record.region_name@ == before.bus_config(req.name@).region_name()
                &&& bus_created(create, before.bus_config(req.name@), Ok(record.bus))
            };
        assert forall|i: int| 0 <= i < after.routes.len() implies after.workers.contains_key(
            (#[trigger] after.routes[i]).2,
        ) by {
            if i < cleared.routes.len() {
                assert(after.routes[i] == cleared.routes[i]);
            }
        }
    }
}

/// After a registration that succeeded there is exactly one worker of the given
/// name: the new one. Its predecessors and their routes are gone; workers of
/// other names are still there.
pub proof fn registrations_replace_their_predecessors<
    B,
    C: Fn(&SlotBusConfig) -> Result<B, SlotBusError>,
>(
    before: HubView<B>,
    after: HubView<B>,
    worker_id: Seq<char>,
    req: RegisterRequest,
    create: C,
    response: RegisterResponse,
    other: Seq<char>,
)
    requires
        before.registered(after, worker_id, req, create, Ok(response)),
        other != worker_id,
    ensures
        after.workers.contains_key(worker_id),
        after.workers[worker_id].name@ == req.name@,
        after.workers.contains_key(other) <==> before.workers.contains_key(other)
            && before.workers[other].name@ != req.name@,
        after.workers.contains_key(other) ==> after.workers[other] == before.workers[other],
        before.ids_of(req.name@).contains(other) ==> forall|i: int|
            0 <= i < after.routes.len() ==> (#[trigger] after.routes[i]).2 != other,
{
    let gone = before.ids_of(req.name@);
    let cleared = before.without(req.name@);
    lemma_routes_left(before.routes, gone);
    let record = choose|record: WorkerRecord<B>|
        {
            &&& after == #[trigger] cleared.with_worker(worker_id, record)
            &&& record.name@ == req.name@
            &&& record.routes@ == req.routes@
            &&& record.region_name@ == before.bus_config(req.name@).region_name()
            &&& bus_created(create, before.bus_config(req.name@), Ok(record.bus))
        };
    if gone.contains(other) {
        assert forall|i: int| 0 <= i < after.routes.len() implies (#[trigger] after.routes[i]).2
            != other by {
            if i < cleared.routes.len() {
                assert(after.routes[i] == cleared.routes[i]);
            }
        }
    }
}

// ---- By position and by field ------------------------------------------------

/// A status with three digits reaches the client as it is; any other becomes an
/// internal server error.
pub proof fn worker_statuses_are_kept(status: u16)
    ensures
        100 <= status <= 999 ==> http_status(status) == status,
        status < 100 || status > 999 ==> http_status(status) == 500,
{
}

/// What the client is told where no worker answered.
pub proof fn failures_are_told_apart(reason: String, e: SlotBusError, path: Seq<char>, secs: u64)
    ensures
        failure_reply(Outcome::BodyUnreadable(reason), path, secs) == (
            400u16,
            "Failed to read request body: "@ + reason@,
        ),
        failure_reply(Outcome::DispatchFailed(e), path, secs) == (
            502u16,
            "SHM dispatch failed: "@ + e@.sentence(),
        ),
        failure_reply(Outcome::Dropped, path, secs) == (502u16, "Worker dropped the request"@),
        failure_reply(Outcome::TimedOut, path, secs) == (
            504u16,
            "Request to "@ + path + " timed out after "@ + text::decimal(secs as nat) + "s"@,
        ),
{
}

/// The headers that a worker gets are those with a readable value, all of them
/// and in order.
pub proof fn readable_headers_are_kept(headers: Seq<(String, Option<String>)>)
    ensures
        readable(headers) == headers.filter(
            |h: (String, Option<String>)| h.1 is Some,
        ).map_values(|h: (String, Option<String>)| (h.0@, h.1->Some_0@)),
    decreases headers.len(),
{
    let has_value = |h: (String, Option<String>)| h.1 is Some;
    let as_texts = |h: (String, Option<String>)| (h.0@, h.1->Some_0@);
    reveal(Seq::filter);
    if headers.len() > 0 {
        readable_headers_are_kept(headers.drop_last());
        let kept = headers.drop_last().filter(has_value);
        if headers.last().1 is Some {
            assert(kept.push(headers.last()).map_values(as_texts) =~= kept.map_values(
                as_texts,
            ).push(as_texts(headers.last())));
        }
    }
    assert(readable(headers) =~= headers.filter(has_value).map_values(as_texts));
}

/// Where every header is readable, all are kept.
pub(crate) proof fn lemma_all_readable(headers: Seq<(String, Option<String>)>)
    requires
        forall|i: int| 0 <= i < headers.len() ==> (#[trigger] headers[i]).1 is Some,
    ensures
        readable(headers).len() == headers.len(),
    decreases headers.len(),
{
    if headers.len() > 0 {
        let before = headers.drop_last();
        assert forall|i: int| 0 <= i < before.len() implies (#[trigger] before[i]).1 is Some by {
            assert(before[i] == headers[i]);
        }
        lemma_all_readable(before);
        assert(headers.last() == headers[headers.len() - 1]);
    }
}

/// The bus of a worker is configured from the hub's own configuration, with a
/// number of slots between 1 and 256, and its region is named after the worker.
pub proof fn buses_are_configured_like_the_hub<B>(hub: HubView<B>, name: Seq<char>)
    ensures
        ({
            let c = hub.bus_config(name);
            &&& c.name == name
            &&& c.prefix == "hub"@
            &&& 1 <= c.num_slots <= 256
            &&& 1 <= hub.config.num_slots <= 256 ==> c.num_slots == hub.config.num_slots
            &&& hub.config.num_slots == 0 ==> c.num_slots == 1
            &&& hub.config.num_slots > 256 ==> c.num_slots == 256
            &&& c.region_size == hub.config.region_size
            &&& c.wait_timeout_ms == 5000
            &&& c.instrumentation == hub.config.instrumentation
            &&& c.limited_names == hub.config.limited_names
            &&& !hub.config.limited_names ==> c.region_name() == "hub"@ + "-"@ + name
        }),
{
}

/// The route table stands for its entries, each for itself and in order.
pub proof fn route_tables_are_their_entries(table: Seq<(String, String, String)>)
    ensures
        route_views(table).len() == table.len(),
        forall|i: int|
            0 <= i < table.len() ==> {
                &&& (#[trigger] route_views(table)[i]).0 == table[i].0@
                &&& route_views(table)[i].1 == table[i].1@
                &&& route_views(table)[i].2 == table[i].2@
            },
{
}

/// Leaving out routes is filtering.
proof fn lemma_routes_filtered(
    routes: Seq<RouteView>,
    gone: Set<Seq<char>>,
    stays: spec_fn(RouteView) -> bool,
)
    requires
        forall|r: RouteView| #[trigger] stays(r) <==> !gone.contains(r.2),
    ensures
        routes_without(routes, gone) == routes.filter(stays),
    decreases routes.len(),
{
    reveal(Seq::filter);
    if routes.len() > 0 {
        lemma_routes_filtered(routes.drop_last(), gone, stays);
        assert(stays(routes.last()) <==> !gone.contains(routes.last().2));
    }
}

/// After a registration that succeeded, the route table holds every route that
/// was asked for, in order, behind the routes of the workers of other names; and
/// the hub knows the worker with its name, its routes and its region.
pub proof fn registrations_add_every_route<B, C: Fn(&SlotBusConfig) -> Result<B, SlotBusError>>(
    before: HubView<B>,
    after: HubView<B>,
    worker_id: Seq<char>,
    req: RegisterRequest,
    create: C,
    response: RegisterResponse,
)
    requires
        before.registered(after, worker_id, req, create, Ok(response)),
    ensures
        ({
            let kept = before.routes.filter(
                |r: RouteView|
                    !(before.workers.contains_key(r.2) && before.workers[r.2].name@ == req.name@),
            );
            &&& after.routes.len() == kept.len() + req.routes@.len()
            &&& forall|i: int| 0 <= i < kept.len() ==> #[trigger] after.routes[i] == kept[i]
            &&& forall|i: int|
                0 <= i < req.routes@.len() ==> {
                    &&& after.routes[kept.len() + i].0 == (#[trigger] req.routes@[i]).method@
                    &&& after.routes[kept.len() + i].1 == req.routes@[i].path@
                    &&& after.routes[kept.len() + i].2 == worker_id
                }
        }),
        after.config == before.config,
        after.workers.contains_key(worker_id),
        after.workers[worker_id].name@ == req.name@,
        after.workers[worker_id].routes@ == req.routes@,
        after.workers[worker_id].region_name@ == before.bus_config(req.name@).region_name(),
        response.worker_id@ == worker_id,
        response.shm_name@ == before.bus_config(req.name@).region_name(),
        bus_created(create, before.bus_config(req.name@), Ok(after.workers[worker_id].bus)),
{
    let stays = |r: RouteView|
        !(before.workers.contains_key(r.2) && before.workers[r.2].name@ == req.name@);
    lemma_routes_filtered(before.routes, before.ids_of(req.name@), stays);
}

/// A registration that failed leaves the hub as it was, where the name was
/// refused with 400; otherwise it forgets the workers of the name and their
/// routes, and nothing else, and the answer is 500. Nothing is ever added.
pub proof fn failed_registrations_add_nothing<
    B,
    C: Fn(&SlotBusConfig) -> Result<B, SlotBusError>,
>(
    before: HubView<B>,
    after: HubView<B>,
    worker_id: Seq<char>,
    req: RegisterRequest,
    create: C,
    reply: Reply,
)
    requires
        before.registered(after, worker_id, req, create, Err(reply)),
    ensures
        reply matches Reply::Text { status, message } && {
            ||| {
                &&& status == 400
                &&& message@ == "Invalid worker name: "@ + req.name@
                &&& after == before
            }
            ||| {
                &&& status == 500
                &&& exists|c: &SlotBusConfig, e: SlotBusError|
                    {
                        &&& #[trigger] create.ensures((c,), Err(e))
                        &&& c@ == before.bus_config(req.name@)
                        &&& message@ == "Failed to create SHM: "@ + e@.sentence()
                    }
                &&& after.routes == before.routes.filter(
                    |r: RouteView|
                        !(before.workers.contains_key(r.2) && before.workers[r.2].name@
                            == req.name@),
                )
                &&& forall|id: Seq<char>| #[trigger]
                    after.workers.contains_key(id) <==> before.workers.contains_key(id)
                        && before.workers[id].name@ != req.name@
                &&& forall|id: Seq<char>| #[trigger]
                    after.workers.contains_key(id) ==> after.workers[id] == before.workers[id]
            }
        },
        after.config == before.config,
{
    let stays = |r: RouteView|
        !(before.workers.contains_key(r.2) && before.workers[r.2].name@ == req.name@);
    lemma_routes_filtered(before.routes, before.ids_of(req.name@), stays);
    if backing::is_file_name(req.name@) {
        let e = choose|e: SlotBusError|
            {
                &&& #[trigger] bus_created::<B, C>(create, before.bus_config(req.name@), Err(e))
                &&& reply matches Reply::Text { status, message }
                &&& status == 500
                &&& message@ == "Failed to create SHM: "@ + e@.sentence()
            };
        let made: Result<B, SlotBusError> = Err(e);
        let c = choose|c: &SlotBusConfig|
            c@ == before.bus_config(req.name@) && #[trigger] create.ensures((c,), made);
        assert(create.ensures((c,), made));
    }
}

/// A plain name is never refused as such: whether its worker is registered is up
/// to the bus alone.
pub proof fn plain_names_are_registered<B, C: Fn(&SlotBusConfig) -> Result<B, SlotBusError>>(
    before: HubView<B>,
    after: HubView<B>,
    worker_id: Seq<char>,
    req: RegisterRequest,
    create: C,
    res: Result<RegisterResponse, Reply>,
)
    requires
        before.registered(after, worker_id, req, create, res),
        req.name@.len() > 0,
        req.name@ != "."@,
        req.name@ != ".."@,
        forall|i: int|
            0 <= i < req.name@.len() ==> #[trigger] req.name@[i] != '/' && req.name@[i] != '\\',
        req.name@.len() < 2 || req.name@[1] != ':' || !('a' <= req.name@[0] <= 'z' || 'A'
            <= req.name@[0] <= 'Z'),
        forall|c: &SlotBusConfig, made: Result<B, SlotBusError>| #[trigger]
            create.ensures((c,), made) ==> made is Ok,
    ensures
        res is Ok,
{
    backing::plain_names_back_their_file(req.name@);
    if let Err(reply) = res {
        let e = choose|e: SlotBusError| #[trigger]
            bus_created::<B, C>(create, before.bus_config(req.name@), Err(e));
        assert(bus_created::<B, C>(create, before.bus_config(req.name@), Err(e)));
        let made: Result<B, SlotBusError> = Err(e);
        let c = choose|c: &SlotBusConfig|
            c@ == before.bus_config(req.name@) && #[trigger] create.ensures((c,), made);
        assert(create.ensures((c,), made));
    }
}

/// A request goes to the worker of the first route whose method is its own and
/// whose pattern fits its path. The worker gets path, query and headers as they
/// came, the pattern, and for every piece of the pattern that stands in braces
/// the path's piece at the same position, unless a later one has the same name.
pub proof fn requests_go_to_the_first_fitting_route<B>(
    hub: HubView<B>,
    method: Seq<char>,
    path: Seq<char>,
    query: Option<Seq<char>>,
    headers: Seq<(Seq<char>, Seq<char>)>,
    plan: Plan,
    i: int,
)
    requires
        hub.planned(method, path, query, headers, plan),
        0 <= i < hub.routes.len(),
        hub.routes[i].0 == method,
        routes::route_matches(hub.routes[i].1, path),
        forall|k: int|
            0 <= k < i ==> (#[trigger] hub.routes[k]).0 != method || !routes::route_matches(
                hub.routes[k].1,
                path,
            ),
    ensures
        hub.workers.contains_key(hub.routes[i].2) ==> {
            &&& plan matches Plan::Forward { worker_id, req_id, meta }
            &&& worker_id@ == hub.routes[i].2
            &&& is_uuid(req_id@)
            &&& meta.path@ == path
            &&& meta.route_pattern@ == hub.routes[i].1
            &&& match meta.query {
                Some(q) => query == Some(q@),
                None => query is None,
            }
            &&& meta.headers@.len() == headers.len()
            &&& forall|k: int|
                0 <= k < headers.len() ==> (#[trigger] meta.headers@[k]).0@ == headers[k].0
                    && meta.headers@[k].1@ == headers[k].1
            &&& forall|k: int, l: int|
                0 <= k < l < meta.path_params@.len() ==> (#[trigger] meta.path_params@[k]).0@ != (
                #[trigger] meta.path_params@[l]).0@
            &&& forall|p: int| #[trigger]
                captured_alone(hub.routes[i].1, p) ==> exists|k: int|
                    {
                        &&& 0 <= k < meta.path_params@.len()
                        &&& seq!['{'] + (#[trigger] meta.path_params@[k]).0@ + seq!['}']
                            == routes::split_path(hub.routes[i].1)[p]
                        &&& meta.path_params@[k].1@ == routes::split_path(path)[p]
                    }
            &&& forall|k: int|
                0 <= k < meta.path_params@.len() ==> exists|p: int|
                    {
                        &&& 0 <= p < routes::split_path(hub.routes[i].1).len()
                        &&& seq!['{'] + (#[trigger] meta.path_params@[k]).0@ + seq!['}']
                            == #[trigger] routes::split_path(hub.routes[i].1)[p]
                    }
        },
        !hub.workers.contains_key(hub.routes[i].2) ==> {
            &&& plan matches Plan::Reject(Reply::Text { status, message })
            &&& status == 502
            &&& message@ == "Worker "@ + hub.routes[i].2 + " not found"@
        },
{
    assert(hub.fits(i, method, path));
    let n = choose|n: int| #[trigger]
        hub.first_fit(n, method, path) && hub.planned_for(n, path, query, headers, plan);
    assert(n == i) by {
        if n < i {
            assert(hub.fits(n, method, path));
        } else if i < n {
            assert(hub.fits(i, method, path));
        }
    }
    if let Plan::Forward { worker_id, req_id, meta } = plan {
        if hub.workers.contains_key(hub.routes[i].2) {
            let pattern = hub.routes[i].1;
            let pat = routes::split_path(pattern);
            let act = routes::split_path(path);
            let params = meta@.path_params;
            types::texts_are_their_characters(meta.headers@, meta.query);
            types::texts_are_their_characters(meta.path_params@, meta.query);
            transport::last_values_are_the_last(params);
            assert forall|k: int, l: int| 0 <= k < l < meta.path_params@.len() implies (
            #[trigger] meta.path_params@[k]).0@ != (#[trigger] meta.path_params@[l]).0@ by {
                assert(params[k].0 != params[l].0);
            }
            assert forall|p: int| #[trigger] captured_alone(pattern, p) implies exists|k: int|
                {
                    &&& 0 <= k < meta.path_params@.len()
                    &&& seq!['{'] + (#[trigger] meta.path_params@[k]).0@ + seq!['}'] == pat[p]
                    &&& meta.path_params@[k].1@ == act[p]
                } by {
                routes::lemma_braces(pat[p]);
                assert forall|j: int| p < j < pat.len() && routes::is_param(#[trigger] pat[j]) implies
                    routes::param_name(pat[j]) != routes::param_name(pat[p]) by {
                    routes::lemma_braces(pat[j]);
                }
                routes::lemma_captured_at(pat, act, p);
                let name = routes::param_name(pat[p]);
                assert(transport::last_value(params, name) == Some(act[p]));
                let k = choose|k: int|
                    {
                        &&& 0 <= k < params.len()
                        &&& (#[trigger] params[k]).0 == name
                        &&& transport::last_value(params, name) == Some(params[k].1)
                        &&& forall|j: int| k < j < params.len() ==> (#[trigger] params[j]).0 != name
                    };
                assert(meta.path_params@[k].0@ == name);
            }
            assert forall|k: int| 0 <= k < meta.path_params@.len() implies exists|p: int|
                {
                    &&& 0 <= p < pat.len()
                    &&& seq!['{'] + (#[trigger] meta.path_params@[k]).0@ + seq!['}']
                        == #[trigger] pat[p]
                } by {
                let key = params[k].0;
                assert(transport::last_value(params, key) == Some(params[k].1)) by {
                    lemma_last_value_of_unique(params, k);
                }
                let p = routes::lemma_capture_source(pat, act, key);
                routes::lemma_braces(pat[p]);
                assert(pat[p] == seq!['{'] + meta.path_params@[k].0@ + seq!['}']);
            }
        }
    }
}

/// The piece of a pattern at `p` stands in braces, and no piece behind it is the
/// same.
pub open spec fn captured_alone(pattern: Seq<char>, p: int) -> bool {
    let pat = routes::split_path(pattern);
    &&& 0 <= p < pat.len()
    &&& pat[p].len() >= 2
    &&& pat[p][0] == '{'
    &&& pat[p][pat[p].len() - 1] == '}'
    &&& forall|j: int| p < j < pat.len() ==> #[trigger] pat[j] != pat[p]
}

/// A request that no route fits is refused: no worker is registered for it.
pub proof fn requests_without_a_route_are_refused<B>(
    hub: HubView<B>,
    method: Seq<char>,
    path: Seq<char>,
    query: Option<Seq<char>>,
    headers: Seq<(Seq<char>, Seq<char>)>,
    plan: Plan,
)
    requires
        hub.planned(method, path, query, headers, plan),
        forall|k: int|
            0 <= k < hub.routes.len() ==> (#[trigger] hub.routes[k]).0 != method
                || !routes::route_matches(hub.routes[k].1, path),
    ensures
        plan matches Plan::Reject(Reply::Text { status, message }) && status == 502 && message@
            == "No worker registered for "@ + method + " "@ + path,
{
}

/// A worker that has just been registered gets the requests that fit one of its
/// routes and no route before it.
pub proof fn registered_routes_are_reachable<B, C: Fn(&SlotBusConfig) -> Result<B, SlotBusError>>(
    before: HubView<B>,
    after: HubView<B>,
    worker_id: Seq<char>,
    req: RegisterRequest,
    create: C,
    response: RegisterResponse,
    i: int,
    path: Seq<char>,
    query: Option<Seq<char>>,
    headers: Seq<(Seq<char>, Seq<char>)>,
    plan: Plan,
)
    requires
        before.registered(after, worker_id, req, create, Ok(response)),
        0 <= i < req.routes@.len(),
        routes::route_matches(req.routes@[i].path@, path),
        forall|k: int|
            0 <= k < before.routes.len() ==> (#[trigger] before.routes[k]).0
                != req.routes@[i].method@ || !routes::route_matches(before.routes[k].1, path),
        forall|k: int|
            0 <= k < i ==> (#[trigger] req.routes@[k]).method@ != req.routes@[i].method@
                || !routes::route_matches(req.routes@[k].path@, path),
        after.planned(req.routes@[i].method@, path, query, headers, plan),
    ensures
        plan matches Plan::Forward { worker_id: id, req_id, meta } && id@ == worker_id
            && meta.route_pattern@ == req.routes@[i].path@ && meta.path@ == path,
{
    let method = req.routes@[i].method@;
    registrations_add_every_route(before, after, worker_id, req, create, response);
    let gone = before.ids_of(req.name@);
    let kept = before.without(req.name@).routes;
    lemma_routes_left(before.routes, gone);
    let at = kept.len() + i;
    let stays = |r: RouteView|
        !(before.workers.contains_key(r.2) && before.workers[r.2].name@ == req.name@);
    lemma_routes_filtered(before.routes, gone, stays);
    assert forall|k: int| 0 <= k < at implies (#[trigger] after.routes[k]).0 != method
        || !routes::route_matches(after.routes[k].1, path) by {
        if k < kept.len() {
            assert(after.routes[k] == kept[k]);
            let b = choose|b: int| 0 <= b < before.routes.len() && before.routes[b] == kept[k];
            assert(before.routes[b].0 != method || !routes::route_matches(
                before.routes[b].1,
                path,
            ));
        } else {
            let r = req.routes@[k - kept.len()];
            assert(after.routes[kept.len() + (k - kept.len())].0 == r.method@);
        }
    }
    assert(after.routes[kept.len() + i].0 == method);
    requests_go_to_the_first_fitting_route(after, method, path, query, headers, plan, at);
}

impl<B> HubState<B> {
    /// Every worker that the hub knows is listed, once, and nothing else is.
    pub proof fn workers_are_listed_once(&self)
        requires
            self.wf(),
        ensures
            forall|id: Seq<char>| #[trigger]
                self@.workers.contains_key(id) ==> exists|i: int|
                    0 <= i < self.listed().len() && #[trigger] self.listed()[i] == (
                        id,
                        self@.workers[id],
                    ),
            forall|i: int|
                0 <= i < self.listed().len() ==> self@.workers.contains_key(
                    (#[trigger] self.listed()[i]).0,
                ) && self@.workers[self.listed()[i].0] == self.listed()[i].1,
            forall|i: int, j: int|
                0 <= i < j < self.listed().len() ==> (#[trigger] self.listed()[i]).0 != (
                #[trigger] self.listed()[j]).0,
    {
        assert forall|id: Seq<char>| #[trigger] self@.workers.contains_key(id) implies exists|i: int|
            0 <= i < self.listed().len() && #[trigger] self.listed()[i] == (
                id,
                self@.workers[id],
            ) by {
            let i = self.workers.lemma_in_list(id);
            assert(self.listed()[i] == (id, self@.workers[id]));
        }
        assert forall|i: int| 0 <= i < self.listed().len() implies self@.workers.contains_key(
            (#[trigger] self.listed()[i]).0,
        ) && self@.workers[self.listed()[i].0] == self.listed()[i].1 by {
            self.workers.lemma_listed(i);
        }
    }
}

} // verus!
