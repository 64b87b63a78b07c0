use sudo_prompt::exec::{candidates, resolve, Probe};

/// A file system in miniature: the paths that exist, and what a probe of each finds. Everything
/// else is missing. The probes are made in order, as sudo-prompt makes them.
fn resolve_in(command: &[u8], path: &[u8], fs: &[(&str, Probe)]) -> Result<Vec<u8>, String> {
    let probes: Vec<Probe> = candidates(command, path)
        .iter()
        .map(|c| {
            fs.iter()
                .find(|(p, _)| p.as_bytes() == c.as_slice())
                .map(|(_, r)| *r)
                .unwrap_or(Probe::Missing)
        })
        .collect();
    resolve(command, path, &probes)
}

#[test]
fn absolute_and_relative_paths_are_used_verbatim() {
    assert_eq!(resolve(b"/usr/bin/ls", b"/nowhere", &Vec::new()).unwrap(), b"/usr/bin/ls");
    assert_eq!(resolve(b"./script", b"/nowhere", &Vec::new()).unwrap(), b"./script");
    assert_eq!(resolve(b"sub/dir/x", b"", &Vec::new()).unwrap(), b"sub/dir/x");
}

#[test]
fn path_search_takes_the_first_match_in_order() {
    let fs = [("/d/a/tool", Probe::Runnable), ("/d/b/tool", Probe::Runnable)];
    assert_eq!(resolve_in(b"tool", b"/d/b:/d/a", &fs).unwrap(), b"/d/b/tool");
}

#[test]
fn empty_path_elements_are_skipped_not_treated_as_dot() {
    let fs = [("/d/tool", Probe::Runnable), ("tool", Probe::Runnable), ("/tool", Probe::Runnable)];
    // A leading empty element would mean "." to a naive implementation.
    assert_eq!(resolve_in(b"tool", b":/d", &fs).unwrap(), b"/d/tool");
    assert!(resolve_in(b"tool", b"::", &fs).is_err());
}

#[test]
fn trailing_slash_in_a_path_element_is_handled() {
    let fs = [("/d/tool", Probe::Runnable)];
    assert_eq!(resolve_in(b"tool", b"/d/", &fs).unwrap(), b"/d/tool");
}

#[test]
fn directories_and_non_executables_are_not_matches() {
    // A directory named like the command is no match (the probe finds no regular file).
    let err = resolve_in(b"tool", b"/d", &[("/d/tool", Probe::Missing)]).unwrap_err();
    assert!(err.contains("command not found"), "{err}");
    let err = resolve_in(b"tool", b"/d2", &[("/d2/tool", Probe::Denied)]).unwrap_err();
    assert!(err.contains("not executable"), "{err}");
}

#[test]
fn missing_reports_not_found() {
    let err = resolve_in(b"nope", b"/d", &[]).unwrap_err();
    assert!(err.contains("command not found on PATH"), "{err}");
    assert_eq!(err, "nope: command not found on PATH");
}

#[test]
fn a_later_match_wins_over_an_earlier_permission_error() {
    let fs = [("/d/a/tool", Probe::Denied), ("/d/b/tool", Probe::Runnable)];
    assert_eq!(resolve_in(b"tool", b"/d/a:/d/b", &fs).unwrap(), b"/d/b/tool");
}

#[test]
fn candidates_along_the_path() {
    assert_eq!(
        candidates(b"ls", b"/bin:/usr/bin/::/opt"),
        vec![b"/bin/ls".to_vec(), b"/usr/bin/ls".to_vec(), b"/opt/ls".to_vec()]
    );
    assert!(candidates(b"ls", b"").is_empty());
}

#[test]
fn probing_may_stop_at_the_first_runnable() {
    let c = candidates(b"t", b"/a:/b:/c");
    assert_eq!(c.len(), 3);
    assert_eq!(resolve(b"t", b"/a:/b:/c", &vec![Probe::Missing, Probe::Runnable]).unwrap(), b"/b/t");
    assert_eq!(
        resolve(b"t", b"/a:/b:/c", &vec![Probe::Denied]).unwrap_err(),
        "t: found on PATH but not executable"
    );
}
