use da_core::http::{
    content_length, content_length_line, get_url, initial_host_params, join_with_commas,
    param_index, preset_line, presets_array, presets_js, render_page, route_request, Route,
    HOST_JS, PAGE_BODY, PAGE_END, PAGE_HEAD, PAGE_SCRIPT, PAGE_SEP, PAGE_STYLE,
};

#[test]
fn request_targets() {
    let req = "POST /param/3 HTTP/1.1\r\nHost: localhost\r\n\r\n";
    assert_eq!(get_url(req), "/param/3");
    assert_eq!(get_url("GET / HTTP/1.1\r\n\r\n"), "/");
    assert_eq!(route_request(req), Route::SetParam);
    assert_eq!(route_request("GET /x HTTP/1.1"), Route::Page);
    assert_eq!(route_request("POST /savepreset HTTP/1.1"), Route::SavePreset);
    assert_eq!(route_request("PUT / HTTP/1.1"), Route::Other);
    assert_eq!(route_request("POST /other HTTP/1.1"), Route::Other);
}

#[test]
fn parameter_index_of_target() {
    assert_eq!(param_index("/param/3"), Some(3));
    assert_eq!(param_index("/param/12/extra"), Some(12));
    assert_eq!(param_index("/param/"), None);
    assert_eq!(param_index("/param"), None);
    assert_eq!(param_index("/param/x"), None);
}

#[test]
fn content_length_header() {
    assert!(content_length_line("Content-Length: 12\r\n"));
    assert!(!content_length_line("content-length: 12\r\n"));
    assert_eq!(content_length("Content-Length: 12\r\n"), Some(12));
    assert_eq!(content_length("Content-Length:  -4 \r\n"), Some(-4));
    assert_eq!(content_length("Content-Length: 1 2\r\n"), Some(2));
    assert_eq!(content_length("Content-Length: x\r\n"), None);
    assert_eq!(content_length("   \r\n"), None);
}

#[test]
fn presets_as_javascript() {
    assert_eq!(presets_js(""), "");
    assert_eq!(presets_js("a,Freq,50,Gain,2,\n"), r#"["a","Freq",50,"Gain",2,""]"#);
    assert_eq!(
        presets_js("a,F,1,\r\nb,F,2,\n\nc"),
        r#"["a","F",1,""],["b","F",2,""],[""],["c"]"#
    );
    assert_eq!(presets_array("[1],[2]"), "let presets = [[1],[2]]");
    assert_eq!(initial_host_params("{a},{b}"), "let initial_host_params = [{a},{b}]");
    assert_eq!(join_with_commas(&vec!["x".to_string(), "y".to_string(), "z".to_string()]), "x,y,z");
    assert_eq!(join_with_commas(&vec![]), "");
}

#[test]
fn saved_preset_reads_back() {
    let params = vec![
        ("Freq".to_string(), "50".to_string()),
        ("Gain".to_string(), "2.5".to_string()),
    ];
    let line = preset_line("warm", &params);
    assert_eq!(line, "warm,Freq,50,Gain,2.5,\n");
    assert_eq!(presets_js(&line), r#"["warm","Freq",50,"Gain",2.5,""]"#);
    assert_eq!(preset_line("empty", &vec![]), "empty,\n");
    assert_eq!(presets_js(&preset_line("empty", &vec![])), r#"["empty",""]"#);
}

#[test]
fn the_page() {
    let page = render_page("CSS", "Kick", "HTML", "P", "R", "JS");
    let want = format!(
        "{PAGE_HEAD}CSS{PAGE_STYLE}Kick{PAGE_BODY}HTML{PAGE_SCRIPT}P{PAGE_SEP}R{PAGE_SEP}{HOST_JS}{PAGE_SEP}JS{PAGE_END}"
    );
    assert_eq!(page, want);
    assert!(page.contains("<div id=\"name\">Kick</div>"));
    assert!(page.starts_with("\n  <!DOCTYPE html>"));
    assert!(page.ends_with("</html>\n"));
    assert!(page.contains("async function savePreset(name)"));
}

#[test]
fn presets_follow_std_lines() {
    for text in ["a\r", "a\r\n", "\n", "x\n\ny", "p,1,\r\nq,2,\r\n", "\r\n\r\n", "a,b\nc"] {
        let want: Vec<String> = text
            .lines()
            .map(|line| {
                let parts: Vec<String> = line
                    .split(',')
                    .enumerate()
                    .map(|(i, part)| if i == 0 || i % 2 == 1 { format!("\"{}\"", part) } else { part.to_string() })
                    .collect();
                format!("[{}]", parts.join(","))
            })
            .collect();
        assert_eq!(presets_js(text), want.join(","));
    }
}
