use vstd::prelude::*;

use crate::patch::{PatchSet, PatchUpdate, PropertyChange};
use crate::session::{ReadResult, ServeSession, SubscribeOutcome};
use crate::text::{
    chars_of, comma_pieces, equals, has_lua_extension, is_lua_path, parse_cursor, parse_id,
    parse_id_list, parse_ids_spec, parse_spec, rest_of, starts_with,
};
use crate::tree::{is_live, read_slots, shows, shows_all, slot_of, InstanceSnapshot, NodeView};

verus! {

/// The version of the protocol spoken over the web interface.
pub const PROTOCOL_VERSION: u64 = 4;

/// The directory, under the editor's content folder, that exported assets
/// are written to.
pub const CREATE_ASSETS_DIR: &'static str = "rojo-exports";

/// Why a request was refused.
#[derive(PartialEq, Eq, Structural, Debug)]
pub enum ApiError {
    MalformedCursor,
    MalformedIdList,
    InvalidInstanceId,
    InstanceNotFound,
    NoScriptFile,
    WrongSessionId,
}

#[derive(PartialEq, Eq, Structural, Debug, Clone, Copy)]
pub enum Method {
    Get,
    Post,
    Other,
}

/// Which handler a request goes to, with what its path holds after the
/// route's prefix.
pub enum Route {
    Rojo,
    Read(String),
    Subscribe(String),
    Open(String),
    Write,
    CreateAssets,
    NotFound,
}

pub open spec fn has_prefix(s: Seq<char>, p: Seq<char>) -> bool {
    p.len() <= s.len() && s.subrange(0, p.len() as int) == p
}

pub open spec fn after(s: Seq<char>, p: Seq<char>) -> Seq<char> {
    s.subrange(p.len() as int, s.len() as int)
}

/// The route of a request: the first rule that matches, in this order.
pub open spec fn route_spec(m: Method, path: Seq<char>, r: Route) -> bool {
    if m == Method::Get && path == "/api/rojo"@ {
        r is Rojo
    } else if m == Method::Get && has_prefix(path, "/api/read/"@) {
        r matches Route::Read(a) && a@ == after(path, "/api/read/"@)
    } else if m == Method::Get && has_prefix(path, "/api/subscribe/"@) {
        r matches Route::Subscribe(a) && a@ == after(path, "/api/subscribe/"@)
    } else if m == Method::Post && has_prefix(path, "/api/open/"@) {
        r matches Route::Open(a) && a@ == after(path, "/api/open/"@)
    } else if m == Method::Post && path == "/api/write"@ {
        r is Write
    } else if m == Method::Post && path == "/api/create-assets"@ {
        r is CreateAssets
    } else {
        r is NotFound
    }
}

/// What the server says of itself.
pub struct ServerInfo {
    pub server_version: String,
    pub protocol_version: u64,
    pub session_id: u128,
    pub project_name: String,
    pub expected_place_ids: Option<Vec<u64>>,
    pub root_instance_id: u128,
}

/// Changes a client asks for on one instance.
pub struct InstanceUpdate {
    pub id: u128,
    pub changed_name: Option<String>,
    pub changed_class_name: Option<String>,
    pub changed_properties: Vec<PropertyChange>,
}

pub struct WriteRequest {
    pub session_id: u128,
    pub updated: Vec<InstanceUpdate>,
}

/// A subscription result, with the session it belongs to.
pub struct SubscribeResponse {
    pub session_id: u128,
    pub outcome: SubscribeOutcome,
}

/// The files that could be opened for a script, in order of preference,
/// with the session they belong to.
pub struct OpenCandidates {
    pub session_id: u128,
    pub paths: Vec<String>,
}

pub struct CreateAssetsRequest {
    pub session_id: u128,
    pub assets: Vec<u128>,
}

/// `u` is the patch entry for the client's update `c`.
pub open spec fn carries(u: PatchUpdate, c: InstanceUpdate) -> bool {
    &&& u.id == c.id
    &&& u.changed_name == c.changed_name
    &&& u.changed_class_name == c.changed_class_name
    &&& u.changed_properties == c.changed_properties
    &&& u.changed_metadata is None
}

/// The ids among `ids` that name live instances, in order.
pub open spec fn live_ids(v: Seq<NodeView>, ids: Seq<u128>) -> Seq<u128>
    decreases ids.len(),
{
    if ids.len() == 0 {
        Seq::empty()
    } else if is_live(v, ids.last()) {
        live_ids(v, ids.drop_last()).push(ids.last())
    } else {
        live_ids(v, ids.drop_last())
    }
}

/// The index of the first candidate whose file exists, if any.
pub fn first_existing(exists: &Vec<bool>) -> (r: Option<usize>)
    ensures
        r is None <==> forall|k: int| 0 <= k < exists@.len() ==> !exists@[k],
        r matches Some(i) ==> i < exists@.len() && exists@[i as int] && forall|k: int|
            0 <= k < i ==> !exists@[k],
{
    let mut i: usize = 0;
    while i < exists.len()
        invariant
            i <= exists@.len(),
            forall|k: int| 0 <= k < i ==> !exists@[k],
        decreases exists@.len() - i,
    {
        if exists[i] {
            return Some(i);
        }
        i = i + 1;
    }
    None
}

/// The classes whose instances are scripts.
pub open spec fn is_script_class(c: Seq<char>) -> bool {
    c == "Script"@ || c == "LocalScript"@ || c == "ModuleScript"@
}

/// The paths that end in a `.lua` file name, in order.
pub open spec fn lua_paths(paths: Seq<String>) -> Seq<String>
    decreases paths.len(),
{
    if paths.len() == 0 {
        Seq::empty()
    } else if is_lua_path(paths.last()@) {
        lua_paths(paths.drop_last()).push(paths.last())
    } else {
        lua_paths(paths.drop_last())
    }
}

/// The files worth opening for a script: when the class is one of the
/// script classes, its relevant paths that end in a `.lua` file name, in
/// order; nothing for any other class.
pub fn script_candidates(class_name: &String, paths: &Vec<String>) -> (r: Vec<String>)
    ensures
        !is_script_class(class_name@) ==> r@.len() == 0,
        is_script_class(class_name@) ==> r@ == lua_paths(paths@),
{
    let mut out: Vec<String> = Vec::new();
    let cs = chars_of(class_name.as_str());
    if !(equals(&cs, "Script") || equals(&cs, "LocalScript") || equals(&cs, "ModuleScript")) {
        return out;
    }
    let mut i: usize = 0;
    while i < paths.len()
        invariant
            i <= paths@.len(),
            out@ == lua_paths(paths@.subrange(0, i as int)),
        decreases paths@.len() - i,
    {
        proof {
            let next = paths@.subrange(0, i + 1);
            assert(next.drop_last() =~= paths@.subrange(0, i as int));
        }
        if has_lua_extension(&paths[i]) {
            out.push(paths[i].clone());
        }
        i = i + 1;
    }
    assert(paths@.subrange(0, paths@.len() as int) =~= paths@);
    out
}

/// The file name of an exported model, from a fresh unique name.
pub fn model_file_name(unique: &str) -> (r: String)
    ensures
        r@ == unique@ + ".rbxm"@,
{
    let mut r = String::new();
    r.append(unique);
    r.append(".rbxm");
    r
}

/// The editor's address of an exported model file.
pub fn asset_url(model_file: &str) -> (r: String)
    ensures
        r@ == "rbxasset://"@ + CREATE_ASSETS_DIR@ + "/"@ + model_file@,
{
    let mut r = String::new();
    r.append("rbxasset://");
    r.append(CREATE_ASSETS_DIR);
    r.append("/");
    r.append(model_file);
    r
}

/// The web interface over one session.
pub struct ApiService {
    pub serve_session: ServeSession,
}

impl ApiService {
    pub fn new(serve_session: ServeSession) -> (r: Self)
        ensures
            r.serve_session == serve_session,
    {
        ApiService { serve_session }
    }

    pub open spec fn wf(&self) -> bool {
        self.serve_session.wf()
    }

    /// Picks the handler for a request.
    pub fn call(&self, method: Method, path: &str) -> (r: Route)
        ensures
            route_spec(method, path@, r),
    {
        let cs = chars_of(path);
        let n = cs.len();
        match method {
            Method::Get => {
                if equals(&cs, "/api/rojo") {
                    return Route::Rojo;
                }
                if starts_with(&cs, "/api/read/") {
                    let k = "/api/read/".unicode_len();
                    return Route::Read(rest_of(path, k));
                }
                if starts_with(&cs, "/api/subscribe/") {
                    let k = "/api/subscribe/".unicode_len();
                    return Route::Subscribe(rest_of(path, k));
                }
                Route::NotFound
            },
            Method::Post => {
                if starts_with(&cs, "/api/open/") {
                    let k = "/api/open/".unicode_len();
                    return Route::Open(rest_of(path, k));
                }
                if equals(&cs, "/api/write") {
                    return Route::Write;
                }
                if equals(&cs, "/api/create-assets") {
                    return Route::CreateAssets;
                }
                Route::NotFound
            },
            Method::Other => Route::NotFound,
        }
    }

    /// A summary of the server.
    pub fn handle_api_rojo(&self, server_version: String) -> (r: ServerInfo)
        requires
            self.wf(),
        ensures
            r.server_version@ == server_version@,
            r.protocol_version == PROTOCOL_VERSION,
            r.session_id == self.serve_session.id_view(),
            r.project_name@ == self.serve_session.name_view(),
            r.expected_place_ids is None <==> self.serve_session.places_view() is None,
            r.expected_place_ids is Some ==> r.expected_place_ids->Some_0@
                == self.serve_session.places_view()->Some_0,
            r.root_instance_id == self.serve_session.tree_view()[0].id,
    {
        ServerInfo {
            server_version,
            protocol_version: PROTOCOL_VERSION,
            session_id: self.serve_session.session_id(),
            project_name: self.serve_session.project_name().clone(),
            expected_place_ids: self.serve_session.serve_place_ids(),
            root_instance_id: self.serve_session.root_id(),
        }
    }

    /// The instances named by a comma-separated list of ids, with their
    /// descendants and the current cursor; unknown ids are skipped.
    pub fn handle_api_read(&self, argument: &str) -> (r: Result<ReadResult, ApiError>)
        requires
            self.wf(),
        ensures
            parse_ids_spec(comma_pieces(argument@)) is None <==> r == Err::<ReadResult, ApiError>(
                ApiError::MalformedIdList,
            ),
            parse_ids_spec(comma_pieces(argument@)) matches Some(ids) ==> (r matches Ok(res) && {
                &&& res.session_id == self.serve_session.id_view()
                &&& res.message_cursor == self.serve_session.queue_view().log.len()
                &&& shows_all(
                    self.serve_session.tree_view(),
                    read_slots(self.serve_session.tree_view(), ids),
                    res.instances@,
                )
            }),
    {
        match parse_id_list(argument) {
            Some(ids) => Ok(self.serve_session.read(&ids)),
            None => Err(ApiError::MalformedIdList),
        }
    }

    /// The changes after the cursor in `argument`, at once or `Pending`,
    /// with the session id.
    pub fn handle_api_subscribe(&self, argument: &str) -> (r: Result<SubscribeResponse, ApiError>)
        requires
            self.wf(),
        ensures
            parse_spec(argument@, 10, u32::MAX as int) is None <==> r is Err,
            r matches Err(e) ==> e == ApiError::MalformedCursor,
            parse_spec(argument@, 10, u32::MAX as int) matches Some(c) ==> (r matches Ok(o)
                && o.session_id == self.serve_session.id_view()
                && self.serve_session.subscribed(c as u32, o.outcome)),
    {
        match parse_cursor(argument) {
            Some(cursor) => Ok(
                SubscribeResponse {
                    session_id: self.serve_session.session_id(),
                    outcome: self.serve_session.subscribe(cursor),
                },
            ),
            None => Err(ApiError::MalformedCursor),
        }
    }

    /// The patch that a client's write asks for: its updates, in order, with
    /// no metadata change. A write for another session is refused.
    pub fn handle_api_write(&self, request: WriteRequest) -> (r: Result<PatchSet, ApiError>)
        ensures
            request.session_id != self.serve_session.id_view() <==> r == Err::<PatchSet, ApiError>(
                ApiError::WrongSessionId,
            ),
            request.session_id == self.serve_session.id_view() ==> (r matches Ok(p) && {
                &&& p.removed_instances@.len() == 0
                &&& p.added_instances@.len() == 0
                &&& p.updated_instances@.len() == request.updated@.len()
                &&& forall|k: int|
                    0 <= k < request.updated@.len() ==> carries(
                        #[trigger] p.updated_instances@[k],
                        request.updated@[k],
                    )
            }),
    {
        if request.session_id != self.serve_session.session_id() {
            return Err(ApiError::WrongSessionId);
        }
        let ghost all = request.updated@;
        let mut rest = request.updated;
        let mut updated: Vec<PatchUpdate> = Vec::new();
        let ghost mut j: int = 0;
        while rest.len() > 0
            invariant
                0 <= j <= all.len(),
                rest@ == all.subrange(j, all.len() as int),
                updated@.len() == j,
                forall|k: int| 0 <= k < j ==> carries(#[trigger] updated@[k], all[k]),
            decreases rest@.len(),
        {
            let u = rest.remove(0);
            assert(u == all[j]);
            updated.push(
                PatchUpdate {
                    id: u.id,
                    changed_name: u.changed_name,
                    changed_class_name: u.changed_class_name,
                    changed_properties: u.changed_properties,
                    changed_metadata: None,
                },
            );
            proof {
                j = j + 1;
                assert(rest@ =~= all.subrange(j, all.len() as int));
            }
        }
        Ok(PatchSet { removed_instances: Vec::new(), added_instances: Vec::new(), updated_instances: updated })
    }

    /// The files that could be opened for the instance in `argument`, in
    /// order of preference, with the session id; the caller opens the first
    /// that exists.
    pub fn handle_api_open(&self, argument: &str) -> (r: Result<OpenCandidates, ApiError>)
        requires
            self.wf(),
        ensures
            parse_spec(argument@, 16, u128::MAX as int) is None <==> r == Err::<OpenCandidates, ApiError>(
                ApiError::InvalidInstanceId,
            ),
            parse_spec(argument@, 16, u128::MAX as int) matches Some(id) ==> {
                let v = self.serve_session.tree_view();
                let id = id as u128;
                let i = slot_of(v, id);
                &&& !is_live(v, id) <==> r == Err::<OpenCandidates, ApiError>(ApiError::InstanceNotFound)
                &&& is_live(v, id) && (!is_script_class(v[i].class_name) || lua_paths(
                    v[i].relevant_paths,
                ).len() == 0) ==> r == Err::<OpenCandidates, ApiError>(ApiError::NoScriptFile)
                &&& is_live(v, id) && is_script_class(v[i].class_name) && lua_paths(
                    v[i].relevant_paths,
                ).len() > 0 ==> (r matches Ok(o) && o.session_id == self.serve_session.id_view()
                    && o.paths@ == lua_paths(v[i].relevant_paths))
            },
    {
        let id = match parse_id(argument) {
            Some(id) => id,
            None => {
                return Err(ApiError::InvalidInstanceId);
            },
        };
        let instance = match self.serve_session.get(id) {
            Some(instance) => instance,
            None => {
                return Err(ApiError::InstanceNotFound);
            },
        };
        let paths = script_candidates(&instance.class_name, &instance.metadata.relevant_paths);
        if paths.len() == 0 {
            return Err(ApiError::NoScriptFile);
        }
        Ok(OpenCandidates { session_id: self.serve_session.session_id(), paths })
    }

    /// Copies of the instances to export, each without its children, in
    /// the order asked. An id the tree does not hold is skipped; a request
    /// for another session is refused.
    pub fn handle_api_create_assets(&self, request: &CreateAssetsRequest) -> (r: Result<
        Vec<InstanceSnapshot>,
        ApiError,
    >)
        requires
            self.wf(),
        ensures
            request.session_id != self.serve_session.id_view() <==> r == Err::<
                Vec<InstanceSnapshot>,
                ApiError,
            >(ApiError::WrongSessionId),
            request.session_id == self.serve_session.id_view() ==> (r matches Ok(out) && {
                let v = self.serve_session.tree_view();
                let live = live_ids(v, request.assets@);
                &&& out@.len() == live.len()
                &&& forall|k: int|
                    0 <= k < out@.len() ==> shows(v, slot_of(v, live[k]), #[trigger] out@[k])
            }),
    {
        if request.session_id != self.serve_session.session_id() {
            return Err(ApiError::WrongSessionId);
        }
        let ghost v = self.serve_session.tree_view();
        let mut out: Vec<InstanceSnapshot> = Vec::new();
        let mut k: usize = 0;
        while k < request.assets.len()
            invariant
                self.wf(),
                v == self.serve_session.tree_view(),
                k <= request.assets@.len(),
                out@.len() == live_ids(v, request.assets@.subrange(0, k as int)).len(),
                forall|j: int|
                    0 <= j < out@.len() ==> shows(
                        v,
                        slot_of(v, live_ids(v, request.assets@.subrange(0, k as int))[j]),
                        #[trigger] out@[j],
                    ),
            decreases request.assets@.len() - k,
        {
            let ghost pre = request.assets@.subrange(0, k as int);
            let ghost next = request.assets@.subrange(0, k + 1);
            assert(next.drop_last() =~= pre);
            let ghost prev = out@;
            match self.serve_session.get(request.assets[k]) {
                Some(s) => {
                    out.push(s);
                    proof {
                        let l = live_ids(v, next);
                        assert(l == live_ids(v, pre).push(request.assets@[k as int]));
                        assert forall|j: int| 0 <= j < out@.len() implies shows(
                            v,
                            slot_of(v, l[j]),
                            #[trigger] out@[j],
                        ) by {
                            if j < prev.len() {
                                assert(out@[j] == prev[j]);
                                assert(l[j] == live_ids(v, pre)[j]);
                            }
                        }
                    }
                },
                None => {},
            }
            k = k + 1;
        }
        assert(request.assets@.subrange(0, request.assets@.len() as int) =~= request.assets@);
        Ok(out)
    }
}

} // verus!
