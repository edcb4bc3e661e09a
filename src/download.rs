//! What a PDB download asks for: the CodeView identity of the file, the
//! symbol servers to try, and where to put the result.
use crate::text::{chars_of, push_char, push_str, string_from_chars};
use vstd::prelude::*;

verus! {

pub const DEFAULT_SERVER_URL: &'static str = "http://msdl.microsoft.com/download/symbols";

/// CodeView information of an executable: the name of its PDB file and the
/// GUID-and-age string that identifies it.
#[derive(Debug, Clone)]
pub struct CodeView {
    pub path: String,
    pub guid: String,
}

/// A PDB download request.
#[derive(Debug)]
pub struct PdbDownloader {
    codeview: CodeView,
    servers: Vec<String>,
    output: Option<String>,
}

impl PdbDownloader {
    pub closed spec fn codeview_of(&self) -> CodeView {
        self.codeview
    }

    pub closed spec fn server_seq(&self) -> Seq<Seq<char>> {
        self.servers@.map_values(|s: String| s@)
    }

    pub closed spec fn output_of(&self) -> Option<Seq<char>> {
        match self.output {
            Some(o) => Some(o@),
            None => None,
        }
    }

    /// A request for `codeview` from the default symbol server.
    pub fn new(codeview: CodeView) -> (r: PdbDownloader)
        ensures
            r.codeview_of() == codeview,
            r.server_seq() == seq![DEFAULT_SERVER_URL@],
            r.output_of() is None,
    {
        let mut servers: Vec<String> = Vec::new();
        servers.push(DEFAULT_SERVER_URL.to_owned());
        let r = PdbDownloader { codeview, servers, output: None };
        assert(r.server_seq() =~= seq![DEFAULT_SERVER_URL@]);
        r
    }

    /// The same request, from `servers` in order.
    pub fn with_servers(self, servers: Vec<String>) -> (r: PdbDownloader)
        ensures
            r.codeview_of() == self.codeview_of(),
            r.server_seq() == servers@.map_values(|s: String| s@),
            r.output_of() == self.output_of(),
    {
        PdbDownloader { servers, ..self }
    }

    /// The same request, saved at `output`.
    pub fn with_output(self, output: String) -> (r: PdbDownloader)
        ensures
            r.codeview_of() == self.codeview_of(),
            r.server_seq() == self.server_seq(),
            r.output_of() == Some(output@),
    {
        PdbDownloader { output: Some(output), ..self }
    }

    /// The CodeView identity asked for.
    pub fn codeview(&self) -> (r: &CodeView)
        ensures
            *r == self.codeview_of(),
    {
        &self.codeview
    }

    /// Where to save the file, if chosen.
    pub fn output(&self) -> (r: &Option<String>)
        ensures
            r is Some <==> self.output_of() is Some,
            r is Some ==> r->0@ == self.output_of()->0,
    {
        &self.output
    }

    /// The addresses to try, in order: for each server, the file under its
    /// own name and then under its compressed name (see [`compressed_name`]).
    pub fn candidate_urls(&self) -> (r: Vec<String>)
        ensures
            r@.len() == 2 * self.server_seq().len(),
            forall|i: int|
                0 <= i < self.server_seq().len() ==> #[trigger] r@[2 * i]@ == file_url(
                    self.server_seq()[i],
                    self.codeview_of().path@,
                    self.codeview_of().guid@,
                    self.codeview_of().path@,
                ) && r@[2 * i + 1]@ == file_url(
                    self.server_seq()[i],
                    self.codeview_of().path@,
                    self.codeview_of().guid@,
                    compressed_name(self.codeview_of().path@),
                ),
    {
        let path = &self.codeview.path;
        let guid = &self.codeview.guid;
        let compressed = compressed_file_name(path.as_str());
        let mut urls: Vec<String> = Vec::new();
        let mut i: usize = 0;
        while i < self.servers.len()
            invariant
                i <= self.servers@.len(),
                compressed@ == compressed_name(path@),
                path == self.codeview.path,
                guid == self.codeview.guid,
                urls@.len() == 2 * i,
                forall|k: int|
                    0 <= k < i ==> #[trigger] urls@[2 * k]@ == file_url(
                        self.servers@[k]@,
                        path@,
                        guid@,
                        path@,
                    ) && urls@[2 * k + 1]@ == file_url(
                        self.servers@[k]@,
                        path@,
                        guid@,
                        compressed_name(path@),
                    ),
            decreases self.servers@.len() - i,
        {
            let server = &self.servers[i];
            let ghost before = urls@;
            urls.push(build_url(server, path, guid, path));
            urls.push(build_url(server, path, guid, &compressed));
            assert forall|k: int| 0 <= k < i implies #[trigger] urls@[2 * k] == before[2 * k] && urls@[2
                * k + 1] == before[2 * k + 1] by {}
            assert(urls@[2 * (i as int)]@ == file_url(self.servers@[i as int]@, path@, guid@, path@));
            assert(urls@[2 * (i as int) + 1]@ == file_url(
                self.servers@[i as int]@,
                path@,
                guid@,
                compressed_name(path@),
            ));
            i = i + 1;
        }
        urls
    }

    /// The name under which the file is saved in a directory:
    /// `<guid>_<path>`.
    pub fn file_name(&self) -> (r: String)
        ensures
            r@ == self.codeview_of().guid@ + seq!['_'] + self.codeview_of().path@,
    {
        let mut s = self.codeview.guid.clone();
        push_char(&mut s, '_');
        push_str(&mut s, self.codeview.path.as_str());
        s
    }
}

/// `<server>/<path>/<guid>/<name>`.
pub open spec fn file_url(server: Seq<char>, path: Seq<char>, guid: Seq<char>, name: Seq<char>) -> Seq<
    char,
> {
    server + seq!['/'] + path + seq!['/'] + guid + seq!['/'] + name
}

/// The compressed-file name for `path`: its last character replaced by `_`
/// (`ntkrnlmp.pdb` becomes `ntkrnlmp.pd_`).
pub open spec fn compressed_name(path: Seq<char>) -> Seq<char> {
    (if path.len() > 0 {
        path.drop_last()
    } else {
        path
    }) + seq!['_']
}

fn compressed_file_name(path: &str) -> (r: String)
    ensures
        r@ == compressed_name(path@),
{
    let c = chars_of(path);
    let n = c.len();
    let keep: usize = if n > 0 {
        n - 1
    } else {
        0
    };
    let mut out: Vec<char> = Vec::new();
    let mut k: usize = 0;
    while k < keep
        invariant
            c@ == path@,
            n == c@.len(),
            keep <= n,
            k <= keep,
            out@ == c@.subrange(0, k as int),
        decreases keep - k,
    {
        out.push(c[k]);
        assert(out@ =~= c@.subrange(0, k + 1));
        k = k + 1;
    }
    let ghost body = out@;
    out.push('_');
    proof {
        assert(out@ =~= body + seq!['_']);
        if n > 0 {
            assert(path@.drop_last() =~= c@.subrange(0, keep as int));
        } else {
            assert(path@ =~= c@.subrange(0, 0));
        }
    }
    string_from_chars(out.as_slice())
}

fn build_url(server: &String, path: &String, guid: &String, name: &String) -> (r: String)
    ensures
        r@ == file_url(server@, path@, guid@, name@),
{
    let mut s = server.clone();
    push_char(&mut s, '/');
    push_str(&mut s, path.as_str());
    push_char(&mut s, '/');
    push_str(&mut s, guid.as_str());
    push_char(&mut s, '/');
    push_str(&mut s, name.as_str());
    s
}

} // verus!
