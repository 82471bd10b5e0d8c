use vstd::prelude::*;
use crate::file_cache::{map_of, entry_views, FileCache};
use crate::plugin::{
    static_target, Plugin, PluginHelloWorld, PluginStaticFile, Response, GET_METHOD, HELLO_PAGE,
    INDEX_PATH, OK_HEADER,
};
use crate::request::{method_of, path_of, Request};

verus! {

/// What the server writes back when no plugin wants a request.
pub const NOT_FOUND: &'static str = "HTTP/1.1 404 NOT FOUND\r\n\r\n";

/// The first plugin of `chain`, from index `i` on, that wants the request.
pub open spec fn first_match_from(
    chain: Seq<Plugin>,
    i: int,
    method: Seq<char>,
    path: Seq<char>,
    files: Map<Seq<char>, Seq<char>>,
) -> Option<Plugin>
    decreases chain.len() - i,
{
    if i < 0 || i >= chain.len() {
        None
    } else if chain[i].matches(method, path, files) {
        Some(chain[i])
    } else {
        first_match_from(chain, i + 1, method, path, files)
    }
}

/// The first plugin of `chain` that wants the request, in chain order.
pub open spec fn first_match(
    chain: Seq<Plugin>,
    method: Seq<char>,
    path: Seq<char>,
    files: Map<Seq<char>, Seq<char>>,
) -> Option<Plugin> {
    first_match_from(chain, 0, method, path, files)
}

/// What the chain answers: the page of its first plugin that wants the
/// request, or the bare 404 when none does.
pub open spec fn dispatch(
    chain: Seq<Plugin>,
    method: Seq<char>,
    path: Seq<char>,
    files: Map<Seq<char>, Seq<char>>,
) -> Seq<char> {
    match first_match(chain, method, path, files) {
        Some(p) => p.page(method, path, files),
        None => NOT_FOUND@,
    }
}

/// A server: its port, its ordered plugin chain, the directory it serves and
/// the cache of that directory's files.
pub struct Server {
    port: String,
    plugins: Vec<Plugin>,
    file_root: String,
    cache: FileCache,
}

impl Server {
    pub closed spec fn wf(&self) -> bool {
        self.cache.wf()
    }

    /// The plugin chain, in registration order.
    pub closed spec fn chain(&self) -> Seq<Plugin> {
        self.plugins@
    }

    pub closed spec fn port_view(&self) -> Seq<char> {
        self.port@
    }

    pub closed spec fn root_view(&self) -> Seq<char> {
        self.file_root@
    }

    /// The cached files, by URL path.
    pub closed spec fn files(&self) -> Map<Seq<char>, Seq<char>> {
        self.cache@
    }

    pub closed spec fn is_loaded(&self) -> bool {
        self.cache.is_initialized()
    }

    /// A server with the given chain whose cache is not loaded yet.
    pub fn new(port: &str, plugins: Vec<Plugin>, file_root: &str) -> (r: Server)
        ensures
            r.wf(),
            r.chain() == plugins@,
            r.port_view() == port@,
            r.root_view() == file_root@,
            !r.is_loaded(),
            r.files() == Map::<Seq<char>, Seq<char>>::empty(),
    {
        Server {
            port: String::from_str(port),
            plugins,
            file_root: String::from_str(file_root),
            cache: FileCache::new(),
        }
    }

    /// The port to listen on.
    pub fn port(&self) -> (r: &str)
        ensures
            r@ == self.port_view(),
    {
        self.port.as_str()
    }

    /// The plugin chain, in registration order.
    pub fn plugins(&self) -> (r: &Vec<Plugin>)
        ensures
            r@ == self.chain(),
    {
        &self.plugins
    }

    /// The directory whose files are served.
    pub fn file_root(&self) -> (r: &str)
        ensures
            r@ == self.root_view(),
    {
        self.file_root.as_str()
    }

    /// Whether the cache has been loaded.
    pub fn loaded(&self) -> (r: bool)
        ensures
            r == self.is_loaded(),
    {
        self.cache.loaded()
    }

    /// Loads the cache from pairs of URL path and contents. It is loaded once
    /// only: a second load is a programming error, ruled out by `requires`.
    pub fn load_files(&mut self, files: Vec<(String, String)>)
        requires
            old(self).wf(),
            !old(self).is_loaded(),
        ensures
            final(self).wf(),
            final(self).chain() == old(self).chain(),
            final(self).port_view() == old(self).port_view(),
            final(self).root_view() == old(self).root_view(),
            final(self).is_loaded(),
            final(self).files() == map_of(entry_views(files@)),
    {
        self.cache.init(files)
    }

    /// Walks the chain in order and serves the request with the first plugin
    /// that wants it, or answers with the bare 404.
    pub fn respond(&self, req: &Request) -> (r: Response)
        requires
            self.wf(),
        ensures
            r.body@ == dispatch(self.chain(), req.method@, req.path@, self.files()),
    {
        let n = self.plugins.len();
        let mut i: usize = 0;
        while i < n
            invariant
                self.wf(),
                n == self.plugins@.len(),
                i <= n,
                first_match_from(self.plugins@, i as int, req.method@, req.path@, self.cache@)
                    == first_match(self.plugins@, req.method@, req.path@, self.cache@),
            decreases n - i,
        {
            if self.plugins[i].plugin_match(req, &self.cache) {
                return self.plugins[i].plugin_serve(req, &self.cache);
            }
            i = i + 1;
        }
        Response { body: String::from_str(NOT_FOUND) }
    }

    /// Parses raw request text and answers it.
    pub fn handle_request(&self, raw: String) -> (r: Response)
        requires
            self.wf(),
        ensures
            r.body@ == dispatch(self.chain(), method_of(raw@), path_of(raw@), self.files()),
    {
        let req = Request::new(raw);
        self.respond(&req)
    }
}


/// When no plugin of `chain` from index `i` on wants a request, there is no
/// match from `i` on.
proof fn lemma_no_match_from(
    chain: Seq<Plugin>,
    i: int,
    method: Seq<char>,
    path: Seq<char>,
    files: Map<Seq<char>, Seq<char>>,
)
    requires
        0 <= i,
        forall|j: int| 0 <= j < chain.len() ==> !(#[trigger] chain[j].matches(method, path, files)),
    ensures
        first_match_from(chain, i, method, path, files) is None,
    decreases chain.len() - i,
{
    if i < chain.len() {
        lemma_no_match_from(chain, i + 1, method, path, files);
    }
}

/// A chain of which no plugin wants a request answers exactly the bare 404.
pub proof fn lemma_no_match_not_found(
    chain: Seq<Plugin>,
    method: Seq<char>,
    path: Seq<char>,
    files: Map<Seq<char>, Seq<char>>,
)
    requires
        forall|j: int| 0 <= j < chain.len() ==> !(#[trigger] chain[j].matches(method, path, files)),
    ensures
        dispatch(chain, method, path, files) == NOT_FOUND@,
{
    lemma_no_match_from(chain, 0, method, path, files);
}

proof fn lemma_same_target_from(
    chain: Seq<Plugin>,
    i: int,
    method: Seq<char>,
    path1: Seq<char>,
    path2: Seq<char>,
    files: Map<Seq<char>, Seq<char>>,
)
    requires
        0 <= i,
        static_target(path1) == static_target(path2),
    ensures
        first_match_from(chain, i, method, path1, files) == first_match_from(
            chain,
            i,
            method,
            path2,
            files,
        ),
    decreases chain.len() - i,
{
    if i < chain.len() {
        lemma_same_target_from(chain, i + 1, method, path1, path2, files);
    }
}

/// A request for the root is answered exactly as one for the index page,
/// whatever the chain and the cache.
pub proof fn lemma_root_serves_index(
    chain: Seq<Plugin>,
    method: Seq<char>,
    files: Map<Seq<char>, Seq<char>>,
)
    ensures
        dispatch(chain, method, seq!['/'], files) == dispatch(chain, method, INDEX_PATH@, files),
{
    reveal_strlit("/index.html");
    assert(INDEX_PATH@ != seq!['/']) by {
        assert(INDEX_PATH@.len() != 1);
    }
    lemma_same_target_from(chain, 0, method, seq!['/'], INDEX_PATH@, files);
}

/// The order of the chain decides: of two plugins that both want a request,
/// the one registered first serves it.
pub proof fn lemma_first_registered_serves(
    a: Plugin,
    b: Plugin,
    method: Seq<char>,
    path: Seq<char>,
    files: Map<Seq<char>, Seq<char>>,
)
    requires
        a.matches(method, path, files),
        b.matches(method, path, files),
    ensures
        dispatch(seq![a, b], method, path, files) == a.page(method, path, files),
        dispatch(seq![b, a], method, path, files) == b.page(method, path, files),
{
}

/// Reordering a chain leaves the fallback alone: when no plugin of it wants a
/// request, every reordering of it answers the bare 404 too.
pub proof fn lemma_reorder_keeps_not_found(
    chain: Seq<Plugin>,
    reordered: Seq<Plugin>,
    method: Seq<char>,
    path: Seq<char>,
    files: Map<Seq<char>, Seq<char>>,
)
    requires
        reordered.to_multiset() == chain.to_multiset(),
        forall|j: int| 0 <= j < chain.len() ==> !(#[trigger] chain[j].matches(method, path, files)),
    ensures
        dispatch(chain, method, path, files) == NOT_FOUND@,
        dispatch(reordered, method, path, files) == NOT_FOUND@,
{
    lemma_no_match_not_found(chain, method, path, files);
    assert forall|j: int| 0 <= j < reordered.len() implies !(
    #[trigger] reordered[j].matches(method, path, files)) by {
        chain.to_multiset_ensures();
        reordered.to_multiset_ensures();
        assert(reordered.contains(reordered[j]));
        assert(reordered.to_multiset().count(reordered[j]) > 0);
        assert(chain.to_multiset().count(reordered[j]) > 0);
        assert(chain.contains(reordered[j]));
    }
    lemma_no_match_not_found(reordered, method, path, files);
}

/// With the static-file plugin registered before the hello-world one, a
/// cached file is served from the cache, and a GET for anything else gets
/// the hello-world page.
pub proof fn lemma_static_before_hello(
    method: Seq<char>,
    path: Seq<char>,
    files: Map<Seq<char>, Seq<char>>,
)
    ensures
        files.contains_key(static_target(path)) ==> dispatch(
            seq![Plugin::StaticFile(PluginStaticFile), Plugin::HelloWorld(PluginHelloWorld)],
            method,
            path,
            files,
        ) == OK_HEADER@ + files[static_target(path)],
        !files.contains_key(static_target(path)) && method == GET_METHOD@ ==> dispatch(
            seq![Plugin::StaticFile(PluginStaticFile), Plugin::HelloWorld(PluginHelloWorld)],
            method,
            path,
            files,
        ) == OK_HEADER@ + HELLO_PAGE@,
{
    let chain = seq![Plugin::StaticFile(PluginStaticFile), Plugin::HelloWorld(PluginHelloWorld)];
    assert(chain[0] == Plugin::StaticFile(PluginStaticFile));
    assert(chain[1] == Plugin::HelloWorld(PluginHelloWorld));
    reveal_with_fuel(first_match_from, 2);
}

} // verus!
