//! The host's web page and the requests that it answers: the request line,
//! the parameter that a request sets, the `Content-Length` header, the saved
//! presets, and the page itself.
use vstd::prelude::*;
use crate::text::{lemma_find_after_plain, chars_of, find, find_chars, is_ws, lemma_find, parse_signed,
    parse_signed_chars, parse_unsigned, parse_unsigned_chars, push_chars, push_str, slice_chars,
    split, split_chars, starts_with, starts_with_str, string_of, trim_end, views, is_whitespace};

verus! {

broadcast use vstd::string::group_string_axioms;

/// The page up to the plugin's style sheet.
pub const PAGE_HEAD: &'static str = r#"
  <!DOCTYPE html>
<html lang="en">
  <head>
    <meta charset="utf-8">
    <style>
      "#;

/// The host's style sheet, up to the plugin's name.
pub const PAGE_STYLE: &'static str = r#"
      #name {
        display: flex;
        padding: 20px;
        justify-content: center;
        align-content: center;
        flex-direction: column;
        background-color: #333;
        color: #fff;
        font-size: 36px;
        margin-bottom: 20px;
      }

      #name > p {
      }

      #app {
        display: flex;
        flex-direction: row;
      }

      #presets {
        width: 200px;
        margin-right: 20px;
      }

      #params {
        width: 100%;
      }
    </style>
    <title>Rust Jack Audio Control App</title>
  </head>
  <body>
    <div id="name">"#;

/// The page's layout, up to the plugin's markup.
pub const PAGE_BODY: &'static str = r#"</div>
    <div id="app">
      <div id="presets"></div>
      <div id="params"></div>
    </div>
    "#;

/// The start of the page's script.
pub const PAGE_SCRIPT: &'static str = r#"
    <script>
      "#;

/// What separates the parts of the page's script.
pub const PAGE_SEP: &'static str = r#"
      "#;

/// The end of the page.
pub const PAGE_END: &'static str = r#"
    </script>
  </body>
</html>
"#;

/// The host's script: it posts parameter values and preset names to the host.
pub const HOST_JS: &'static str = r#"
async function send(param, value) {
  await fetch(`http://localhost:7878/param/${param}`, {
    method: 'POST',
    body: value
  });
}

async function savePreset(name) {
  await fetch('http://localhost:7878/savepreset', {
    method: 'POST',
    body: name
  });
}
"#;

// ---------------------------------------------------------------------------
// Requests
// ---------------------------------------------------------------------------

/// The target of a request: from the first `/` up to the first ` HTTP`.
pub open spec fn spec_get_url(request: Seq<char>) -> Seq<char> {
    request.subrange(find(request, seq!['/'])->0, find(request, " HTTP"@)->0)
}

/// Whether the request has a `/` that comes no later than its first ` HTTP`.
pub open spec fn has_url(request: Seq<char>) -> bool {
    &&& find(request, seq!['/']) is Some
    &&& find(request, " HTTP"@) is Some
    &&& find(request, seq!['/'])->0 <= find(request, " HTTP"@)->0
}

/// The target of a request.
pub fn get_url(request: &str) -> (url: String)
    requires
        has_url(request@),
    ensures
        url@ == spec_get_url(request@),
{
    let s = chars_of(request);
    let mut slash: Vec<char> = Vec::new();
    slash.push('/');
    assert(slash@ =~= seq!['/']);
    let http = chars_of(" HTTP");
    proof {
        lemma_find(s@, slash@);
        lemma_find(s@, http@);
    }
    let a = match find_chars(&s, &slash) {
        Some(a) => a,
        None => 0,
    };
    let b = match find_chars(&s, &http) {
        Some(b) => b,
        None => 0,
    };
    let u = slice_chars(&s, a, b);
    string_of(&u)
}

/// What a request asks the host for.
#[derive(Copy, Clone, PartialEq, Eq, Debug, Structural)]
pub enum Route {
    /// `POST /param/...`: set a parameter to the value in the body.
    SetParam,
    /// `GET /...`: the page.
    Page,
    /// `POST /savepreset...`: save the parameters as a preset named by the body.
    SavePreset,
    /// Anything else: no answer.
    Other,
}

/// What the request (its request line and headers) asks for, by how it begins.
pub open spec fn spec_route(request: Seq<char>) -> Route {
    if starts_with(request, "POST /param/"@) {
        Route::SetParam
    } else if starts_with(request, "GET /"@) {
        Route::Page
    } else if starts_with(request, "POST /savepreset"@) {
        Route::SavePreset
    } else {
        Route::Other
    }
}

/// What the request asks for.
pub fn route_request(request: &str) -> (r: Route)
    ensures
        r == spec_route(request@),
{
    let s = chars_of(request);
    if starts_with_str(&s, "POST /param/") {
        Route::SetParam
    } else if starts_with_str(&s, "GET /") {
        Route::Page
    } else if starts_with_str(&s, "POST /savepreset") {
        Route::SavePreset
    } else {
        Route::Other
    }
}

/// The index of the parameter that a target `/param/N` sets: the third piece
/// between slashes, read as a `usize`.
pub open spec fn spec_param_index(url: Seq<char>) -> Option<nat> {
    let parts = split(url, seq!['/']);
    if parts.len() > 2 {
        parse_unsigned(parts[2], usize::MAX as nat)
    } else {
        None
    }
}

/// The index of the parameter that a target sets, if it names one.
pub fn param_index(url: &str) -> (r: Option<usize>)
    ensures
        match r {
            Some(i) => spec_param_index(url@) == Some(i as nat),
            None => spec_param_index(url@) is None,
        },
{
    let s = chars_of(url);
    let mut slash: Vec<char> = Vec::new();
    slash.push('/');
    assert(slash@ =~= seq!['/']);
    let parts = split_chars(&s, &slash);
    if parts.len() > 2 {
        assert(views(parts@)[2] == parts@[2]@);
        match parse_unsigned_chars(&parts[2], usize::MAX as u64) {
            Some(v) => Some(v as usize),
            None => None,
        }
    } else {
        None
    }
}

/// The trailing run of non-whitespace characters of `t`.
pub open spec fn token_tail(t: Seq<char>) -> Seq<char>
    decreases t.len(),
{
    if t.len() == 0 || is_ws(t.last()) {
        Seq::empty()
    } else {
        token_tail(t.drop_last()).push(t.last())
    }
}

/// The last whitespace-separated word of `s`, if any.
pub open spec fn last_word(s: Seq<char>) -> Option<Seq<char>> {
    let t = trim_end(s);
    if t.len() == 0 {
        None
    } else {
        Some(token_tail(t))
    }
}

/// Whether a header line gives the length of the body.
pub open spec fn is_content_length_line(line: Seq<char>) -> bool {
    starts_with(line, "Content-Length:"@)
}

/// The length that a `Content-Length` line gives: its last word, read as an `i32`.
pub open spec fn spec_content_length(line: Seq<char>) -> Option<int> {
    match last_word(line) {
        Some(w) => parse_signed(w, i32::MAX as nat),
        None => None,
    }
}

/// Whether a header line gives the length of the body.
pub fn content_length_line(line: &str) -> (b: bool)
    ensures
        b == is_content_length_line(line@),
{
    let s = chars_of(line);
    starts_with_str(&s, "Content-Length:")
}

/// The length that a `Content-Length` line gives, if its last word is an `i32`.
pub fn content_length(line: &str) -> (r: Option<i32>)
    ensures
        match r {
            Some(n) => spec_content_length(line@) == Some(n as int),
            None => spec_content_length(line@) is None,
        },
{
    let s = chars_of(line);
    let mut j: usize = s.len();
    assert(s@.take(j as int) =~= s@);
    while j > 0 && is_whitespace(s[j - 1])
        invariant
            j <= s.len(),
            trim_end(s@) == trim_end(s@.take(j as int)),
        decreases j,
    {
        assert(s@.take(j as int).drop_last() =~= s@.take(j - 1));
        j = j - 1;
    }
    let ghost t = s@.take(j as int);
    assert(trim_end(t) == t);
    if j == 0 {
        return None;
    }
    let mut i: usize = j;
    while i > 0 && !is_whitespace(s[i - 1])
        invariant
            i <= j <= s.len(),
            t == s@.take(j as int),
            token_tail(t) == token_tail(s@.take(i as int)) + s@.subrange(i as int, j as int),
        decreases i,
    {
        assert(s@.take(i as int).drop_last() =~= s@.take(i - 1));
        assert(s@.subrange(i - 1, j as int) =~= seq![s@[i - 1]] + s@.subrange(i as int, j as int));
        assert(token_tail(s@.take(i as int)) =~= token_tail(s@.take(i - 1)).push(s@[i - 1]));
        i = i - 1;
    }
    assert(token_tail(s@.take(i as int)) =~= Seq::<char>::empty());
    let w = slice_chars(&s, i, j);
    assert(token_tail(t) =~= w@);
    match parse_signed_chars(&w, i32::MAX as u64) {
        Some(v) => Some(v as i32),
        None => None,
    }
}


// ---------------------------------------------------------------------------
// Presets
// ---------------------------------------------------------------------------

/// `items` joined with `sep` between them.
pub open spec fn join(items: Seq<Seq<char>>, sep: Seq<char>) -> Seq<char>
    decreases items.len(),
{
    if items.len() == 0 {
        Seq::empty()
    } else if items.len() == 1 {
        items[0]
    } else {
        join(items.drop_last(), sep) + sep + items.last()
    }
}

/// `items` joined with `sep` between them.
pub fn join_chars(items: &Vec<Vec<char>>, sep: &Vec<char>) -> (r: Vec<char>)
    ensures
        r@ == join(views(items@), sep@),
{
    let mut r: Vec<char> = Vec::new();
    let mut k: usize = 0;
    assert(views(items@).take(0) =~= Seq::<Seq<char>>::empty());
    while k < items.len()
        invariant
            k <= items.len(),
            r@ == join(views(items@).take(k as int), sep@),
        decreases items.len() - k,
    {
        let ghost prefix = views(items@).take(k as int);
        assert(views(items@).take(k + 1).drop_last() =~= prefix);
        assert(views(items@).take(k + 1).last() == items@[k as int]@);
        if k > 0 {
            push_chars(&mut r, sep);
        } else {
            assert(r@ =~= Seq::<char>::empty());
        }
        push_chars(&mut r, &items[k]);
        k = k + 1;
    }
    assert(views(items@).take(k as int) =~= views(items@));
    r
}

/// `items` joined with commas.
pub fn join_with_commas(items: &Vec<String>) -> (r: String)
    ensures
        r@ == join(items@.map_values(|s: String| s@), seq![',']),
{
    let mut vs: Vec<Vec<char>> = Vec::new();
    let mut k: usize = 0;
    while k < items.len()
        invariant
            k <= items.len(),
            views(vs@) == items@.map_values(|s: String| s@).take(k as int),
        decreases items.len() - k,
    {
        let c = chars_of(items[k].as_str());
        let ghost old_vs = views(vs@);
        let ghost cv = c@;
        vs.push(c);
        assert(views(vs@) =~= old_vs.push(cv));
        k = k + 1;
        assert(views(vs@) =~= items@.map_values(|s: String| s@).take(k as int));
    }
    assert(items@.map_values(|s: String| s@).take(k as int) =~= items@.map_values(|s: String| s@));
    let mut comma: Vec<char> = Vec::new();
    comma.push(',');
    assert(comma@ =~= seq![',']);
    let r = join_chars(&vs, &comma);
    string_of(&r)
}

/// `s` without one `\r` at its end.
pub open spec fn strip_cr(s: Seq<char>) -> Seq<char> {
    if s.len() > 0 && s.last() == '\r' {
        s.drop_last()
    } else {
        s
    }
}

/// The lines of `s` (as std's `str::lines`): the pieces between line feeds,
/// each without the carriage return before its line feed; a final line
/// feed does not begin another line.
pub open spec fn lines(s: Seq<char>) -> Seq<Seq<char>> {
    let p = split(s, seq!['\n']);
    let n = p.len() as int;
    Seq::new((n - 1) as nat, |i: int| strip_cr(p[i])) + if p[n - 1].len() > 0 {
        seq![p[n - 1]]
    } else {
        Seq::<Seq<char>>::empty()
    }
}

proof fn lemma_split_nonempty(s: Seq<char>, sep: Seq<char>)
    ensures
        split(s, sep).len() >= 1,
    decreases s.len(),
{
    if sep.len() > 0 {
        if let Some(i) = find(s, sep) {
            lemma_find(s, sep);
            lemma_split_nonempty(s.skip(i + sep.len()), sep);
        }
    }
}

/// A part of a saved preset as the page reads it: the first part (the preset's
/// name) and every odd part (a parameter's name) in double quotes, the others
/// (the values) as they are.
pub open spec fn preset_part(i: int, part: Seq<char>) -> Seq<char> {
    if i == 0 || i % 2 == 1 {
        seq!['"'] + part + seq!['"']
    } else {
        part
    }
}

/// A saved preset line as a JavaScript array: its comma-separated parts, as
/// `preset_part` gives them, in brackets.
pub open spec fn preset_js(line: Seq<char>) -> Seq<char> {
    let parts = split(line, seq![',']);
    seq!['['] + join(Seq::new(parts.len(), |i: int| preset_part(i, parts[i])), seq![',']) + seq![']']
}

/// The saved presets of a file as the elements of a JavaScript array: each
/// line as `preset_js` gives it, joined with commas.
pub open spec fn spec_presets_js(text: Seq<char>) -> Seq<char> {
    join(lines(text).map_values(|l: Seq<char>| preset_js(l)), seq![','])
}

fn preset_js_chars(line: &Vec<char>) -> (r: Vec<char>)
    ensures
        r@ == preset_js(line@),
{
    let mut comma: Vec<char> = Vec::new();
    comma.push(',');
    assert(comma@ =~= seq![',']);
    let parts = split_chars(line, &comma);
    let ghost pv = split(line@, seq![',']);
    let mut quoted: Vec<Vec<char>> = Vec::new();
    let mut i: usize = 0;
    while i < parts.len()
        invariant
            i <= parts.len(),
            views(parts@) == pv,
            views(quoted@) == Seq::new(pv.len(), |k: int| preset_part(k, pv[k])).take(i as int),
        decreases parts.len() - i,
    {
        assert(parts@[i as int]@ == pv[i as int]);
        let mut q: Vec<char> = Vec::new();
        if i == 0 || i % 2 == 1 {
            q.push('"');
            push_chars(&mut q, &parts[i]);
            q.push('"');
            assert(q@ =~= seq!['"'] + pv[i as int] + seq!['"']);
        } else {
            push_chars(&mut q, &parts[i]);
            assert(q@ =~= pv[i as int]);
        }
        let ghost old_q = views(quoted@);
        let ghost qv = q@;
        quoted.push(q);
        assert(views(quoted@) =~= old_q.push(qv));
        i = i + 1;
        assert(views(quoted@) =~= Seq::new(pv.len(), |k: int| preset_part(k, pv[k])).take(i as int));
    }
    assert(Seq::new(pv.len(), |k: int| preset_part(k, pv[k])).take(i as int) =~= Seq::new(pv.len(), |k: int| preset_part(k, pv[k])));
    let inner = join_chars(&quoted, &comma);
    let mut r: Vec<char> = Vec::new();
    r.push('[');
    push_chars(&mut r, &inner);
    r.push(']');
    assert(r@ =~= seq!['['] + inner@ + seq![']']);
    r
}

/// The lines of `text`.
fn lines_chars(text: &Vec<char>) -> (r: Vec<Vec<char>>)
    ensures
        views(r@) == lines(text@),
{
    let mut nl: Vec<char> = Vec::new();
    nl.push('\n');
    assert(nl@ =~= seq!['\n']);
    let parts = split_chars(text, &nl);
    let ghost p = split(text@, seq!['\n']);
    proof {
        lemma_split_nonempty(text@, seq!['\n']);
    }
    let n = parts.len();
    let mut r: Vec<Vec<char>> = Vec::new();
    let mut i: usize = 0;
    while i + 1 < n
        invariant
            n == parts.len(),
            n >= 1,
            i + 1 <= n,
            views(parts@) == p,
            views(r@) == Seq::new((n - 1) as nat, |k: int| strip_cr(p[k])).take(i as int),
        decreases n - i,
    {
        let part = &parts[i];
        assert(part@ == p[i as int]);
        let l = if part.len() > 0 && part[part.len() - 1] == '\r' {
            slice_chars(part, 0, part.len() - 1)
        } else {
            slice_chars(part, 0, part.len())
        };
        assert(l@ =~= strip_cr(p[i as int]));
        let ghost old_r = views(r@);
        let ghost lv = l@;
        r.push(l);
        assert(views(r@) =~= old_r.push(lv));
        i = i + 1;
        assert(views(r@) =~= Seq::new((n - 1) as nat, |k: int| strip_cr(p[k])).take(i as int));
    }
    assert(Seq::new((n - 1) as nat, |k: int| strip_cr(p[k])).take(i as int) =~= Seq::new((n - 1) as nat, |k: int| strip_cr(p[k])));
    let last = &parts[n - 1];
    assert(last@ == p[n - 1]);
    let ghost before = views(r@);
    if last.len() > 0 {
        let c = slice_chars(last, 0, last.len());
        let ghost cv = c@;
        r.push(c);
        assert(views(r@) =~= before.push(cv));
        assert(cv =~= last@);
        assert(views(r@) =~= before + seq![p[n - 1]]);
    } else {
        assert(views(r@) =~= before + Seq::<Seq<char>>::empty());
    }
    r
}

/// The saved presets of a file as the elements of a JavaScript array.
pub fn presets_js(text: &str) -> (r: String)
    ensures
        r@ == spec_presets_js(text@),
{
    let t = chars_of(text);
    let ls = lines_chars(&t);
    let mut items: Vec<Vec<char>> = Vec::new();
    let mut k: usize = 0;
    while k < ls.len()
        invariant
            k <= ls.len(),
            views(ls@) == lines(t@),
            views(items@) == lines(t@).map_values(|l: Seq<char>| preset_js(l)).take(k as int),
        decreases ls.len() - k,
    {
        assert(ls@[k as int]@ == lines(t@)[k as int]);
        let c = preset_js_chars(&ls[k]);
        let ghost old_items = views(items@);
        let ghost cv = c@;
        items.push(c);
        assert(views(items@) =~= old_items.push(cv));
        k = k + 1;
        assert(views(items@) =~= lines(t@).map_values(|l: Seq<char>| preset_js(l)).take(k as int));
    }
    assert(lines(t@).map_values(|l: Seq<char>| preset_js(l)).take(k as int) =~= lines(t@).map_values(|l: Seq<char>| preset_js(l)));
    let mut comma: Vec<char> = Vec::new();
    comma.push(',');
    assert(comma@ =~= seq![',']);
    let r = join_chars(&items, &comma);
    string_of(&r)
}

/// The line that saves a preset: its name, then each parameter's name and
/// value, each followed by a comma, and a line feed.
pub open spec fn spec_preset_line(name: Seq<char>, params: Seq<(Seq<char>, Seq<char>)>) -> Seq<char>
    decreases params.len(),
{
    if params.len() == 0 {
        name + seq![','] + seq!['\n']
    } else {
        spec_preset_line(name, params.drop_last()).drop_last() + params.last().0 + seq![','] + params.last().1 + seq![','] + seq!['\n']
    }
}

/// The parameters' names and value texts as character sequences.
pub open spec fn param_views(params: Seq<(String, String)>) -> Seq<(Seq<char>, Seq<char>)> {
    params.map_values(|p: (String, String)| (p.0@, p.1@))
}

/// The line that saves a preset named `name` with the parameters' names and value texts.
pub fn preset_line(name: &str, params: &Vec<(String, String)>) -> (r: String)
    ensures
        r@ == spec_preset_line(name@, param_views(params@)),
{
    let mut v = chars_of(name);
    v.push(',');
    let mut k: usize = 0;
    assert(param_views(params@).take(0) =~= Seq::<(Seq<char>, Seq<char>)>::empty());
    while k < params.len()
        invariant
            k <= params.len(),
            v@.push('\n') == spec_preset_line(name@, param_views(params@).take(k as int)),
        decreases params.len() - k,
    {
        let ghost before = v@;
        push_str(&mut v, params[k].0.as_str());
        v.push(',');
        push_str(&mut v, params[k].1.as_str());
        v.push(',');
        assert(param_views(params@).take(k + 1).drop_last() =~= param_views(params@).take(k as int));
        assert(param_views(params@).take(k + 1).last() == (params@[k as int].0@, params@[k as int].1@));
        assert(before.push('\n').drop_last() =~= before);
        k = k + 1;
        assert(v@.push('\n') =~= spec_preset_line(name@, param_views(params@).take(k as int)));
    }
    assert(param_views(params@).take(k as int) =~= param_views(params@));
    v.push('\n');
    string_of(&v)
}

// ---------------------------------------------------------------------------
// The page
// ---------------------------------------------------------------------------

/// `let presets = [{presets}]`: the page's declaration of the saved presets.
pub fn presets_array(presets: &str) -> (r: String)
    ensures
        r@ == "let presets = ["@ + presets@ + "]"@,
{
    let mut v = chars_of("let presets = [");
    push_str(&mut v, presets);
    push_str(&mut v, "]");
    string_of(&v)
}

/// `let initial_host_params = [{params}]`: the page's declaration of the parameters.
pub fn initial_host_params(params: &str) -> (r: String)
    ensures
        r@ == "let initial_host_params = ["@ + params@ + "]"@,
{
    let mut v = chars_of("let initial_host_params = [");
    push_str(&mut v, params);
    push_str(&mut v, "]");
    string_of(&v)
}

/// The host's page around the plugin's style sheet, name, markup and script.
pub open spec fn spec_page(
    css: Seq<char>,
    name: Seq<char>,
    html: Seq<char>,
    params_decl: Seq<char>,
    presets_decl: Seq<char>,
    js: Seq<char>,
) -> Seq<char> {
    PAGE_HEAD@ + css + PAGE_STYLE@ + name + PAGE_BODY@ + html + PAGE_SCRIPT@ + params_decl
        + PAGE_SEP@ + presets_decl + PAGE_SEP@ + HOST_JS@ + PAGE_SEP@ + js + PAGE_END@
}

/// The host's page: the plugin's style sheet, name and markup, the
/// declarations of the parameters and presets, the host's script and the
/// plugin's script.
pub fn render_page(css: &str, name: &str, html: &str, params_decl: &str, presets_decl: &str, js: &str) -> (r: String)
    ensures
        r@ == spec_page(css@, name@, html@, params_decl@, presets_decl@, js@),
{
    let mut v = chars_of(PAGE_HEAD);
    push_str(&mut v, css);
    push_str(&mut v, PAGE_STYLE);
    push_str(&mut v, name);
    push_str(&mut v, PAGE_BODY);
    push_str(&mut v, html);
    push_str(&mut v, PAGE_SCRIPT);
    push_str(&mut v, params_decl);
    push_str(&mut v, PAGE_SEP);
    push_str(&mut v, presets_decl);
    push_str(&mut v, PAGE_SEP);
    push_str(&mut v, HOST_JS);
    push_str(&mut v, PAGE_SEP);
    push_str(&mut v, js);
    push_str(&mut v, PAGE_END);
    string_of(&v)
}


// ---------------------------------------------------------------------------
// Reading back a saved preset
// ---------------------------------------------------------------------------

/// Whether `s` holds no comma.
pub open spec fn comma_free(s: Seq<char>) -> bool {
    forall|i: int| 0 <= i < s.len() ==> #[trigger] s[i] != ','
}

/// Whether `s` holds neither a comma nor a line feed.
pub open spec fn plain_text(s: Seq<char>) -> bool {
    forall|i: int| 0 <= i < s.len() ==> #[trigger] s[i] != ',' && s[i] != '\n'
}

/// The comma-separated parts of a saved preset line: the preset's name, each
/// parameter's name and value, and the empty text after the last comma.
pub open spec fn preset_parts(name: Seq<char>, params: Seq<(Seq<char>, Seq<char>)>) -> Seq<Seq<char>>
    decreases params.len(),
{
    if params.len() == 0 {
        seq![name, Seq::empty()]
    } else {
        preset_parts(name, params.drop_last()).drop_last() + seq![
            params.last().0,
            params.last().1,
            Seq::empty(),
        ]
    }
}

proof fn lemma_preset_parts_shape(name: Seq<char>, params: Seq<(Seq<char>, Seq<char>)>)
    ensures
        preset_parts(name, params).len() == 2 * params.len() + 2,
        preset_parts(name, params)[0] == name,
        preset_parts(name, params).last() == Seq::<char>::empty(),
        forall|k: int| 0 <= k < params.len() ==> #[trigger] preset_parts(name, params)[2 * k + 1] == params[k].0,
        forall|k: int| 0 <= k < params.len() ==> #[trigger] preset_parts(name, params)[2 * k + 2] == params[k].1,
    decreases params.len(),
{
    if params.len() > 0 {
        let n = params.len() as int;
        lemma_preset_parts_shape(name, params.drop_last());
        let prev = preset_parts(name, params.drop_last());
        let d = prev.drop_last();
        let cur = preset_parts(name, params);
        let tail = seq![params.last().0, params.last().1, Seq::<char>::empty()];
        assert(cur == d + tail);
        assert(d.len() == 2 * n - 1);
        assert forall|k: int| 0 <= k < params.len() implies #[trigger] preset_parts(name, params)[2 * k + 1] == params[k].0 by {
            if k < n - 1 {
                assert(params.drop_last()[k] == params[k]);
                assert(prev[2 * k + 1] == params.drop_last()[k].0);
                assert(cur[2 * k + 1] == d[2 * k + 1]);
            } else {
                assert(cur[2 * k + 1] == tail[0]);
            }
        }
        assert forall|k: int| 0 <= k < params.len() implies #[trigger] preset_parts(name, params)[2 * k + 2] == params[k].1 by {
            if k < n - 1 {
                assert(params.drop_last()[k] == params[k]);
                assert(prev[2 * k + 2] == params.drop_last()[k].1);
                assert(cur[2 * k + 2] == d[2 * k + 2]);
            } else {
                assert(cur[2 * k + 2] == tail[1]);
            }
        }
        assert(cur[0] == d[0]);
        assert(cur.last() == tail[2]);
    }
}

proof fn lemma_join_push(items: Seq<Seq<char>>, x: Seq<char>, sep: Seq<char>)
    requires
        items.len() > 0,
    ensures
        join(items.push(x), sep) == join(items, sep) + sep + x,
{
    assert(items.push(x).drop_last() =~= items);
}

pub proof fn lemma_join_cons(a: Seq<char>, rest: Seq<Seq<char>>, sep: Seq<char>)
    requires
        rest.len() > 0,
    ensures
        join(seq![a] + rest, sep) == a + sep + join(rest, sep),
    decreases rest.len(),
{
    let whole = seq![a] + rest;
    assert(whole.last() == rest.last());
    if rest.len() == 1 {
        assert(whole.drop_last() =~= seq![a]);
        assert(join(seq![a], sep) == a);
        assert(join(rest, sep) == rest[0]);
        assert(join(whole, sep) == join(whole.drop_last(), sep) + sep + whole.last());
    } else {
        lemma_join_cons(a, rest.drop_last(), sep);
        assert(whole.drop_last() =~= seq![a] + rest.drop_last());
        assert(join(whole, sep) == join(whole.drop_last(), sep) + sep + whole.last());
        assert(join(rest, sep) == join(rest.drop_last(), sep) + sep + rest.last());
        assert(a + sep + join(rest, sep) =~= (a + sep + join(rest.drop_last(), sep)) + sep + rest.last());
    }
}

proof fn lemma_preset_line_join(name: Seq<char>, params: Seq<(Seq<char>, Seq<char>)>)
    ensures
        spec_preset_line(name, params) == join(preset_parts(name, params), seq![',']) + seq!['\n'],
    decreases params.len(),
{
    if params.len() == 0 {
        assert(seq![name, Seq::<char>::empty()].drop_last() =~= seq![name]);
        assert(join(seq![name], seq![',']) == name);
        assert(spec_preset_line(name, params) =~= join(preset_parts(name, params), seq![',']) + seq!['\n']);
    } else {
        let prev_params = params.drop_last();
        lemma_preset_line_join(name, prev_params);
        lemma_preset_parts_shape(name, prev_params);
        let prev = preset_parts(name, prev_params);
        let d = prev.drop_last();
        let (pn, pv) = params.last();
        let comma = seq![','];
        assert(prev =~= d.push(Seq::<char>::empty()));
        lemma_join_push(d, Seq::<char>::empty(), comma);
        assert(join(prev, comma) =~= join(d, comma) + comma);
        let cur = preset_parts(name, params);
        assert(cur =~= d.push(pn).push(pv).push(Seq::<char>::empty()));
        lemma_join_push(d, pn, comma);
        lemma_join_push(d.push(pn), pv, comma);
        lemma_join_push(d.push(pn).push(pv), Seq::<char>::empty(), comma);
        assert((join(prev, comma) + seq!['\n']).drop_last() =~= join(prev, comma));
        assert(spec_preset_line(name, params) =~= join(cur, comma) + seq!['\n']);
    }
}

/// Splitting at commas undoes joining with commas, for parts without a comma.
pub proof fn lemma_split_join(parts: Seq<Seq<char>>)
    requires
        parts.len() >= 1,
        forall|i: int| 0 <= i < parts.len() ==> comma_free(#[trigger] parts[i]),
    ensures
        split(join(parts, seq![',']), seq![',']) == parts,
    decreases parts.len(),
{
    let comma = seq![','];
    if parts.len() == 1 {
        let a = parts[0];
        assert(comma_free(parts[0]));
        match find(a, comma) {
            None => {},
            Some(k) => {
                lemma_find(a, comma);
                assert(a.subrange(k, k + 1)[0] == a[k]);
            },
        }
        assert(split(a, comma) =~= seq![a]);
        assert(parts =~= seq![a]);
    } else {
        let a = parts[0];
        let rest = parts.drop_first();
        assert(parts =~= seq![a] + rest);
        lemma_join_cons(a, rest, comma);
        assert forall|i: int| 0 <= i < rest.len() implies comma_free(#[trigger] rest[i]) by {
            assert(rest[i] == parts[i + 1]);
        }
        lemma_split_join(rest);
        assert(comma_free(parts[0]));
        lemma_find_after_plain(a, join(rest, comma), ',');
        let s = a + comma + join(rest, comma);
        assert(s.take(a.len() as int) =~= a);
        assert(s.skip((a.len() + 1) as int) =~= join(rest, comma));
        assert(split(s, comma) =~= seq![a] + split(join(rest, comma), comma));
    }
}

/// The page reads back a saved preset as the array of its parts: the
/// preset's name and each parameter's name in double quotes, each value as
/// it was saved, and an empty quoted text for the end of the line, when no
/// name or value holds a comma or a line feed.
pub proof fn law_saved_preset_reads_back(name: Seq<char>, params: Seq<(Seq<char>, Seq<char>)>)
    requires
        plain_text(name),
        forall|k: int| 0 <= k < params.len() ==> plain_text((#[trigger] params[k]).0) && plain_text(params[k].1),
    ensures
        ({
            let parts = preset_parts(name, params);
            spec_presets_js(spec_preset_line(name, params)) == seq!['['] + join(
                Seq::new(parts.len(), |i: int| preset_part(i, parts[i])),
                seq![','],
            ) + seq![']']
        }),
        preset_parts(name, params).len() == 2 * params.len() + 2,
        preset_parts(name, params)[0] == name,
        preset_parts(name, params).last() == Seq::<char>::empty(),
        forall|k: int| 0 <= k < params.len() ==> #[trigger] preset_parts(name, params)[2 * k + 1] == params[k].0,
        forall|k: int| 0 <= k < params.len() ==> #[trigger] preset_parts(name, params)[2 * k + 2] == params[k].1,
{
    let parts = preset_parts(name, params);
    let comma = seq![','];
    let nl = seq!['\n'];
    lemma_preset_parts_shape(name, params);
    lemma_preset_line_join(name, params);
    let line = join(parts, comma);
    assert forall|i: int| 0 <= i < parts.len() implies plain_text(#[trigger] parts[i]) by {
        if i == 0 {
        } else if i == parts.len() - 1 {
        } else if i % 2 == 1 {
            let k = (i - 1) / 2;
            assert(parts[2 * k + 1] == params[k].0);
        } else {
            let k = (i - 2) / 2;
            assert(parts[2 * k + 2] == params[k].1);
        }
    }
    assert forall|i: int| 0 <= i < parts.len() implies comma_free(#[trigger] parts[i]) by {
        assert(plain_text(parts[i]));
    }
    lemma_split_join(parts);
    // The line holds no line feed: every part is plain and the separators are commas.
    assert(plain_text_nl(line)) by {
        lemma_join_no_nl(parts);
    }
    // Its lines are the line itself.
    let text = line + nl;
    lemma_find_after_plain_nl(line);
    assert(text.take(line.len() as int) =~= line);
    assert(text.skip((line.len() + 1) as int) =~= Seq::<char>::empty());
    assert(find(Seq::<char>::empty(), nl) is None);
    assert(split(Seq::<char>::empty(), nl) =~= seq![Seq::<char>::empty()]);
    assert(split(text, nl) =~= seq![line, Seq::<char>::empty()]);
    // The line ends with the comma before the last (empty) part.
    assert(line.len() > 0 && line.last() == ',') by {
        assert(parts =~= parts.drop_last().push(Seq::<char>::empty()));
        lemma_join_push(parts.drop_last(), Seq::<char>::empty(), comma);
    }
    assert(lines(text) =~= seq![line]);
    assert(lines(text).map_values(|l: Seq<char>| preset_js(l)) =~= seq![preset_js(line)]);
}

spec fn plain_text_nl(s: Seq<char>) -> bool {
    forall|i: int| 0 <= i < s.len() ==> #[trigger] s[i] != '\n'
}

proof fn lemma_join_no_nl(parts: Seq<Seq<char>>)
    requires
        forall|i: int| 0 <= i < parts.len() ==> plain_text(#[trigger] parts[i]),
    ensures
        plain_text_nl(join(parts, seq![','])),
    decreases parts.len(),
{
    if parts.len() == 1 {
        assert(plain_text(parts[0]));
    } else if parts.len() > 1 {
        assert forall|i: int| 0 <= i < parts.drop_last().len() implies plain_text(#[trigger] parts.drop_last()[i]) by {
            assert(parts.drop_last()[i] == parts[i]);
        }
        lemma_join_no_nl(parts.drop_last());
        assert(plain_text(parts[parts.len() - 1]));
        let j = join(parts, seq![',']);
        let a = join(parts.drop_last(), seq![',']);
        assert forall|i: int| 0 <= i < j.len() implies #[trigger] j[i] != '\n' by {
            if i < a.len() {
                assert(j[i] == a[i]);
            } else if i == a.len() {
            } else {
                assert(j[i] == parts.last()[i - a.len() - 1]);
            }
        }
    }
}

proof fn lemma_find_after_plain_nl(line: Seq<char>)
    requires
        plain_text_nl(line),
    ensures
        find(line + seq!['\n'], seq!['\n']) == Some(line.len() as int),
{
    assert(line + seq!['\n'] =~= line + seq!['\n'] + Seq::<char>::empty());
    lemma_find_after_plain(line, Seq::<char>::empty(), '\n');
}

/// The text `s` in double quotes.
pub open spec fn quoted(s: Seq<char>) -> Seq<char> {
    seq!['"'] + s + seq!['"']
}

/// A preset line reads as the array of its comma-separated parts, each part
/// whose index is 0 or odd in double quotes and every other part as it is,
/// for lines with any number of parts.
pub proof fn law_preset_js_quoting(line: Seq<char>)
    ensures
        ({
            let parts = split(line, seq![',']);
            preset_js(line) == seq!['['] + join(
                Seq::new(parts.len(), |i: int| if i == 0 || i % 2 == 1 { quoted(parts[i]) } else { parts[i] }),
                seq![','],
            ) + seq![']']
        }),
{
    let parts = split(line, seq![',']);
    assert(Seq::new(parts.len(), |i: int| preset_part(i, parts[i])) =~= Seq::new(
        parts.len(),
        |i: int| if i == 0 || i % 2 == 1 { quoted(parts[i]) } else { parts[i] },
    ));
}

/// The page reads back a saved preset with any number of parameters as the
/// array: the preset's name in quotes, then each parameter's name in quotes
/// and its value as it was saved, then an empty quoted text, when no name or
/// value holds a comma or a line feed.
pub proof fn law_saved_preset_js_elements(name: Seq<char>, params: Seq<(Seq<char>, Seq<char>)>)
    requires
        plain_text(name),
        forall|k: int| 0 <= k < params.len() ==> plain_text((#[trigger] params[k]).0) && plain_text(params[k].1),
    ensures
        spec_presets_js(spec_preset_line(name, params)) == seq!['['] + join(
            Seq::new(
                (2 * params.len() + 2) as nat,
                |i: int|
                    if i == 0 {
                        quoted(name)
                    } else if i == 2 * params.len() + 1 {
                        quoted(Seq::empty())
                    } else if i % 2 == 1 {
                        quoted(params[(i - 1) / 2].0)
                    } else {
                        params[(i - 2) / 2].1
                    },
            ),
            seq![','],
        ) + seq![']'],
{
    law_saved_preset_reads_back(name, params);
    let parts = preset_parts(name, params);
    let n = params.len() as int;
    let a = Seq::new(parts.len(), |i: int| preset_part(i, parts[i]));
    let b = Seq::new(
        (2 * params.len() + 2) as nat,
        |i: int|
            if i == 0 {
                quoted(name)
            } else if i == 2 * params.len() + 1 {
                quoted(Seq::empty())
            } else if i % 2 == 1 {
                quoted(params[(i - 1) / 2].0)
            } else {
                params[(i - 2) / 2].1
            },
    );
    assert forall|i: int| 0 <= i < a.len() implies a[i] == b[i] by {
        if i == 0 {
        } else if i == 2 * n + 1 {
            assert(parts[i] == parts.last());
        } else if i % 2 == 1 {
            let k = (i - 1) / 2;
            assert(i == 2 * k + 1);
            assert(parts[2 * k + 1] == params[k].0);
        } else {
            let k = (i - 2) / 2;
            assert(i == 2 * k + 2);
            assert(parts[2 * k + 2] == params[k].1);
        }
    }
    assert(a =~= b);
}

} // verus!
