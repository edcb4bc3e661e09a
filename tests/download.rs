use isr::download::{CodeView, PdbDownloader, DEFAULT_SERVER_URL};

fn codeview() -> CodeView {
    CodeView { path: "ntkrnlmp.pdb".to_string(), guid: "ce7ffb00c20b87500211456b3e905c471".to_string() }
}

#[test]
fn default_server_urls() {
    let d = PdbDownloader::new(codeview());
    assert!(d.output().is_none());
    assert_eq!(d.codeview().path, "ntkrnlmp.pdb");
    let urls = d.candidate_urls();
    assert_eq!(
        urls,
        vec![
            format!("{DEFAULT_SERVER_URL}/ntkrnlmp.pdb/ce7ffb00c20b87500211456b3e905c471/ntkrnlmp.pdb"),
            format!("{DEFAULT_SERVER_URL}/ntkrnlmp.pdb/ce7ffb00c20b87500211456b3e905c471/ntkrnlmp.pd_"),
        ]
    );
}

#[test]
fn custom_servers_and_output() {
    let d = PdbDownloader::new(codeview())
        .with_servers(vec!["http://a".to_string(), "http://b".to_string()])
        .with_output("out.pdb".to_string());
    assert_eq!(d.output().as_deref(), Some("out.pdb"));
    let urls = d.candidate_urls();
    assert_eq!(urls.len(), 4);
    assert!(urls[2].starts_with("http://b/"));
    assert_eq!(d.file_name(), "ce7ffb00c20b87500211456b3e905c471_ntkrnlmp.pdb");
}
