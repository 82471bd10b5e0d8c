use vstd::prelude::*;
use crate::file_cache::{same_text, FileCache};
use crate::request::Request;

verus! {

/// Status line and headers of every page a plugin serves.
pub const OK_HEADER: &'static str = "HTTP/1.1 200 OK\r\nContent-Type: text/html; charset=utf-8\r\n\r\n";

/// What the static-file plugin serves when the file it matched is gone.
pub const MISSING_FILE: &'static str = "<h1>File not found</h1>";

/// The page of the hello-world plugin.
pub const HELLO_PAGE: &'static str = "<!DOCTYPE html><html><body><h1>Hello World Plugin</h1></body></html>";

/// The page that stands for the site root.
pub const INDEX_PATH: &'static str = "/index.html";

/// The one method that the hello-world plugin answers.
pub const GET_METHOD: &'static str = "GET";

/// The full output of a plugin: status line, headers and payload.
pub struct Response {
    pub body: String,
}

/// The path that the static-file plugin looks up for a request path: the
/// root stands for its index page.
pub open spec fn static_target(path: Seq<char>) -> Seq<char> {
    if path == seq!['/'] {
        INDEX_PATH@
    } else {
        path
    }
}

/// What the static-file plugin serves for `path` out of `files`.
pub open spec fn static_page(path: Seq<char>, files: Map<Seq<char>, Seq<char>>) -> Seq<char> {
    let target = static_target(path);
    if files.contains_key(target) {
        OK_HEADER@ + files[target]
    } else {
        OK_HEADER@ + MISSING_FILE@
    }
}

/// Serves files out of the cache.
#[derive(Debug, Clone, Copy)]
pub struct PluginStaticFile;

/// Answers every GET with a fixed page.
#[derive(Debug, Clone, Copy)]
pub struct PluginHelloWorld;

fn is_root(path: &str) -> (r: bool)
    ensures
        r == (path@ == seq!['/']),
{
    if path.unicode_len() == 1 && path.get_char(0) == '/' {
        assert(path@ =~= seq!['/']);
        true
    } else {
        false
    }
}

impl PluginStaticFile {
    /// The plugin's name, for diagnostics.
    pub fn plugin_name(&self) -> (r: &'static str)
        ensures
            r@ == "StaticFile"@,
    {
        "StaticFile"
    }

    fn target<'a>(&self, req: &'a Request) -> (r: &'a str)
        ensures
            r@ == static_target(req.path@),
    {
        if is_root(req.path.as_str()) {
            INDEX_PATH
        } else {
            req.path.as_str()
        }
    }

    /// Wants the request when the cache holds its path (the root standing for
    /// the index page).
    pub fn plugin_match(&self, req: &Request, files: &FileCache) -> (r: bool)
        requires
            files.wf(),
        ensures
            r == files@.contains_key(static_target(req.path@)),
    {
        files.get(self.target(req)).is_some()
    }

    /// The cached file behind the fixed header.
    pub fn plugin_serve(&self, req: &Request, files: &FileCache) -> (r: Response)
        requires
            files.wf(),
        ensures
            r.body@ == static_page(req.path@, files@),
    {
        let payload = match files.get(self.target(req)) {
            Some(text) => text,
            None => MISSING_FILE,
        };
        Response { body: String::from_str(OK_HEADER).concat(payload) }
    }
}

impl PluginHelloWorld {
    /// The plugin's name, for diagnostics.
    pub fn plugin_name(&self) -> (r: &'static str)
        ensures
            r@ == "HelloWorld"@,
    {
        "HelloWorld"
    }

    /// Wants every GET request.
    pub fn plugin_match(&self, req: &Request) -> (r: bool)
        ensures
            r == (req.method@ == GET_METHOD@),
    {
        same_text(req.method.as_str(), GET_METHOD)
    }

    /// The fixed page, whatever the request.
    pub fn plugin_serve(&self, req: &Request) -> (r: Response)
        ensures
            r.body@ == OK_HEADER@ + HELLO_PAGE@,
    {
        Response { body: String::from_str(OK_HEADER).concat(HELLO_PAGE) }
    }
}

/// A request handler of the chain: each decides whether it wants a request,
/// and if so serves it.
#[derive(Debug, Clone, Copy)]
pub enum Plugin {
    StaticFile(PluginStaticFile),
    HelloWorld(PluginHelloWorld),
}

impl Plugin {
    /// Whether the plugin wants a request with this method and path.
    pub open spec fn matches(
        &self,
        method: Seq<char>,
        path: Seq<char>,
        files: Map<Seq<char>, Seq<char>>,
    ) -> bool {
        match self {
            Plugin::StaticFile(_) => files.contains_key(static_target(path)),
            Plugin::HelloWorld(_) => method == GET_METHOD@,
        }
    }

    /// What the plugin serves for a request with this method and path.
    pub open spec fn page(
        &self,
        method: Seq<char>,
        path: Seq<char>,
        files: Map<Seq<char>, Seq<char>>,
    ) -> Seq<char> {
        match self {
            Plugin::StaticFile(_) => static_page(path, files),
            Plugin::HelloWorld(_) => OK_HEADER@ + HELLO_PAGE@,
        }
    }

    /// The name of the plugin, for diagnostics.
    pub fn plugin_name(&self) -> (r: &'static str)
        ensures
            r@ == match self {
                Plugin::StaticFile(_) => "StaticFile"@,
                Plugin::HelloWorld(_) => "HelloWorld"@,
            },
    {
        match self {
            Plugin::StaticFile(p) => p.plugin_name(),
            Plugin::HelloWorld(p) => p.plugin_name(),
        }
    }

    /// Whether the plugin wants the request.
    pub fn plugin_match(&self, req: &Request, files: &FileCache) -> (r: bool)
        requires
            files.wf(),
        ensures
            r == self.matches(req.method@, req.path@, files@),
    {
        match self {
            Plugin::StaticFile(p) => p.plugin_match(req, files),
            Plugin::HelloWorld(p) => p.plugin_match(req),
        }
    }

    /// Serves a request that the plugin wants.
    pub fn plugin_serve(&self, req: &Request, files: &FileCache) -> (r: Response)
        requires
            files.wf(),
        ensures
            r.body@ == self.page(req.method@, req.path@, files@),
    {
        match self {
            Plugin::StaticFile(p) => p.plugin_serve(req, files),
            Plugin::HelloWorld(p) => p.plugin_serve(req),
        }
    }
}

} // verus!
