//! Apps of a host and their launch.
use vstd::prelude::*;
use vstd::string::*;

use crate::error::{is_not_implemented, is_protocol, protocol, protocol2, Error};
use crate::hex::{encode, hex_text};
use crate::query::{
    are_parts, asks, differ, endpoint, is_part, joined_from, lemma_hex_part, lemma_part_pair,
    lemma_request, lemma_values,
};
use crate::text::{
    chars_of, copy_str, decimal, decimal_string, is_digit, law_parsed_decimal, lemma_decimal,
    lemma_split_first, parsed, same_chars, split, string_of, trim, trimmed,
};
use crate::xml::{
    local_name, local_part, outcome_view, outcome_views, read_events, xml_events, EventView, Flat,
    XmlEvent,
};

verus! {

/// An app that can be launched.
#[derive(Debug, Clone, PartialEq, Eq)]
pub struct App {
    pub id: String,
    pub title: String,
}

/// What a session is launched with.
#[derive(Debug, Clone, Copy, PartialEq, Eq, Structural)]
pub struct SessionConfig {
    pub width: u32,
    pub height: u32,
    pub fps: u32,
    pub bit_depth: u8,
    pub hdr: bool,
}

/// The picture that a launch asks for.
#[derive(Debug, Clone, Copy, PartialEq, Eq, Structural)]
pub struct LaunchConfig {
    pub width: u32,
    pub height: u32,
    pub fps: u32,
}

/// Build the request that launches `app`. Not there yet.
pub fn launch_query(_app: &App, _config: &SessionConfig) -> (r: Result<String, Error>)
    ensures
        r matches Err(e) && is_not_implemented(
            e,
            "launch::launch_query"@,
            "protocol/04-applist-and-launch.md"@,
        ),
{
    Err(Error::NotImplemented("launch::launch_query", "protocol/04-applist-and-launch.md"))
}

/// The body of the answer to a request, unless its status says that the request failed.
pub fn answer_body(what: &str, status: u16, body: Vec<u8>) -> (r: Result<Vec<u8>, Error>)
    ensures
        if status == 200 {
            r matches Ok(b) && b@ == body@
        } else {
            r matches Err(e) && is_protocol(e, what@ + " HTTP "@ + decimal(status as nat))
        },
{
    if status == 200 {
        return Ok(body);
    }
    let mut text: String = copy_str(what);
    text.append(" HTTP ");
    text.append(decimal_string(status as u64).as_str());
    Err(Error::Protocol(text))
}

/// The request for the apps of a host.
pub fn applist_path(unique_id: &str) -> (r: String)
    ensures
        r@ == "/applist?uniqueid="@ + unique_id@,
{
    let mut s: String = copy_str("/applist?uniqueid=");
    s.append(unique_id);
    s
}

/// The request that ends a running session.
pub fn cancel_path(unique_id: &str) -> (r: String)
    ensures
        r@ == "/cancel?uniqueid="@ + unique_id@,
{
    let mut s: String = copy_str("/cancel?uniqueid=");
    s.append(unique_id);
    s
}

/// The request that launches an app.
pub open spec fn launch_request(
    unique_id: Seq<char>,
    app_id: Seq<char>,
    cfg: LaunchConfig,
    key: Seq<u8>,
) -> Seq<char> {
    "/launch?uniqueid="@ + unique_id + "&appid="@ + app_id + "&mode="@ + decimal(cfg.width as nat)
        + "x"@ + decimal(cfg.height as nat) + "x"@ + decimal(cfg.fps as nat)
        + "&additionalStates=1&sops=0&rikey="@ + hex_text(key, false)
        + "&rikeyid=12345&localAudioPlayMode=0&surroundAudioInfo=196610&remoteControllersBitmap=0&gcmap=0&hdrMode=0"@
}

/// The request that launches an app with the given session key.
pub fn launch_path(unique_id: &str, app_id: &str, cfg: &LaunchConfig, key: &[u8; 16]) -> (r: String)
    ensures
        r@ == launch_request(unique_id@, app_id@, *cfg, key@),
{
    let mut s: String = copy_str("/launch?uniqueid=");
    s.append(unique_id);
    s.append("&appid=");
    s.append(app_id);
    s.append("&mode=");
    s.append(decimal_string(cfg.width as u64).as_str());
    s.append("x");
    s.append(decimal_string(cfg.height as u64).as_str());
    s.append("x");
    s.append(decimal_string(cfg.fps as u64).as_str());
    s.append("&additionalStates=1&sops=0&rikey=");
    s.append(encode(key).as_str());
    s.append(
        "&rikeyid=12345&localAudioPlayMode=0&surroundAudioInfo=196610&remoteControllersBitmap=0&gcmap=0&hdrMode=0",
    );
    s
}

/// Where the streams of a launched app are set up: what the leaf `sessionUrl0` of the answer says.
pub fn session_url(answer: &Flat) -> (r: Result<String, Error>)
    requires
        answer.wf(),
    ensures
        if answer@.fields.contains_key("sessionUrl0"@) {
            r matches Ok(s) && s@ == answer@.fields["sessionUrl0"@]
        } else {
            r matches Err(e) && is_protocol(e, "launch: no session URL in response"@)
        },
{
    match answer.get("sessionUrl0") {
        Some(url) => Ok(copy_str(url)),
        None => Err(protocol("launch: no session URL in response")),
    }
}

/// The open elements, the app that is being read, and the apps before it. An app is its id and its
/// title.
#[verifier::ext_equal]
pub struct AppList {
    pub open: Seq<Seq<char>>,
    pub current: (Seq<char>, Seq<char>),
    pub apps: Seq<(Seq<char>, Seq<char>)>,
}

/// The state after one event, or the text of the error.
pub open spec fn after_app_event(p: AppList, r: Result<EventView, Seq<char>>) -> Result<
    AppList,
    Seq<char>,
> {
    match r {
        Err(e) => Err("XML: "@ + e),
        Ok(EventView::Start { name, attributes }) => Ok(
            AppList {
                open: p.open.push(local_part(name)),
                current: if local_part(name) == "App"@ {
                    (Seq::empty(), Seq::empty())
                } else {
                    p.current
                },
                ..p
            },
        ),
        Ok(EventView::Text(Err(e))) => Err("XML text: "@ + e),
        Ok(EventView::Text(Ok(t))) => if p.open.len() > 0 && p.open.last() == "ID"@ {
            Ok(AppList { current: (trimmed(t), p.current.1), ..p })
        } else if p.open.len() > 0 && p.open.last() == "AppTitle"@ {
            Ok(AppList { current: (p.current.0, trimmed(t)), ..p })
        } else {
            Ok(p)
        },
        Ok(EventView::End) => if p.open.len() > 0 {
            Ok(
                AppList {
                    open: p.open.drop_last(),
                    apps: if p.open.last() == "App"@ {
                        p.apps.push(p.current)
                    } else {
                        p.apps
                    },
                    ..p
                },
            )
        } else {
            Ok(p)
        },
        Ok(_) => Ok(p),
    }
}

/// The state after the first `n` events, or the text of the first error.
pub open spec fn after_app_events(events: Seq<Result<EventView, Seq<char>>>, n: nat) -> Result<
    AppList,
    Seq<char>,
>
    decreases n,
{
    if n == 0 {
        Ok(
            AppList {
                open: Seq::empty(),
                current: (Seq::empty(), Seq::empty()),
                apps: Seq::empty(),
            },
        )
    } else {
        match after_app_events(events, (n - 1) as nat) {
            Err(e) => Err(e),
            Ok(p) => after_app_event(p, events[n - 1]),
        }
    }
}

/// The ids and titles of a list of apps.
pub open spec fn app_views(v: Seq<App>) -> Seq<(Seq<char>, Seq<char>)> {
    v.map_values(|a: App| (a.id@, a.title@))
}

/// The contents of a list of names.
spec fn name_views(v: Seq<String>) -> Seq<Seq<char>> {
    v.map_values(|s: String| s@)
}

/// An error stays.
proof fn lemma_stays_failed(events: Seq<Result<EventView, Seq<char>>>, m: nat, n: nat)
    requires
        m <= n,
        after_app_events(events, m) is Err,
    ensures
        after_app_events(events, n) == after_app_events(events, m),
    decreases n,
{
    if m < n {
        lemma_stays_failed(events, m, (n - 1) as nat);
    }
}

fn is_name(s: &str, name: &str) -> (r: bool)
    ensures
        r == (s@ == name@),
{
    same_chars(&chars_of(s), &chars_of(name))
}

/// The apps that a list of events tells of.
pub fn fold_apps(events: &Vec<Result<XmlEvent, String>>) -> (r: Result<Vec<App>, Error>)
    ensures
        match after_app_events(outcome_views(events@), events@.len()) {
            Ok(p) => r matches Ok(v) && app_views(v@) == p.apps,
            Err(text) => r matches Err(e) && is_protocol(e, text),
        },
{
    let ghost all = outcome_views(events@);
    let mut apps: Vec<App> = Vec::new();
    let mut open: Vec<String> = Vec::new();
    let mut id: String = String::new();
    let mut title: String = String::new();
    assert(name_views(open@) =~= Seq::empty());
    assert(app_views(apps@) =~= Seq::empty());
    let mut i: usize = 0;
    while i < events.len()
        invariant
            i <= events.len(),
            all == outcome_views(events@),
            after_app_events(all, i as nat) == Ok::<AppList, Seq<char>>(
                AppList {
                    open: name_views(open@),
                    current: (id@, title@),
                    apps: app_views(apps@),
                },
            ),
        decreases events.len() - i,
    {
        assert(all[i as int] == outcome_view(events@[i as int]));
        let ghost before = AppList {
            open: name_views(open@),
            current: (id@, title@),
            apps: app_views(apps@),
        };
        let ghost stack = open@;
        let ghost listed = apps@;
        assert(after_app_events(all, (i + 1) as nat) == after_app_event(before, all[i as int]));
        match &events[i] {
            Err(e) => {
                proof {
                    lemma_stays_failed(all, (i + 1) as nat, all.len());
                }
                return Err(protocol2("XML: ", e.as_str()));
            },
            Ok(XmlEvent::Start { name, attributes: _ }) => {
                let local: String = local_name(name);
                if is_name(local.as_str(), "App") {
                    id = String::new();
                    title = String::new();
                }
                let ghost part = local@;
                open.push(local);
                assert(name_views(open@) =~= name_views(stack).push(part));
            },
            Ok(XmlEvent::Text(Err(e))) => {
                proof {
                    lemma_stays_failed(all, (i + 1) as nat, all.len());
                }
                return Err(protocol2("XML text: ", e.as_str()));
            },
            Ok(XmlEvent::Text(Ok(t))) => {
                if open.len() > 0 {
                    assert(name_views(open@).last() == open@.last()@);
                    let chars: Vec<char> = chars_of(t.as_str());
                    if is_name(open[open.len() - 1].as_str(), "ID") {
                        id = string_of(trim(&chars));
                    } else if is_name(open[open.len() - 1].as_str(), "AppTitle") {
                        title = string_of(trim(&chars));
                    }
                }
            },
            Ok(XmlEvent::End) => {
                if open.len() > 0 {
                    assert(name_views(open@).last() == open@.last()@);
                    if is_name(open[open.len() - 1].as_str(), "App") {
                        apps.push(
                            App { id: copy_str(id.as_str()), title: copy_str(title.as_str()) },
                        );
                        assert(app_views(apps@) =~= app_views(listed).push((id@, title@)));
                    }
                    let _ = open.pop();
                    assert(name_views(open@) =~= name_views(stack).drop_last());
                }
            },
            Ok(XmlEvent::Eof) => {},
            Ok(XmlEvent::Other) => {},
        }
        i += 1;
    }
    Ok(apps)
}

/// Parse the list of apps of a host.
pub fn parse_apps(xml: &[u8]) -> (r: Result<Vec<App>, Error>)
    ensures
        match after_app_events(xml_events(xml@), xml_events(xml@).len()) {
            Ok(p) => r matches Ok(v) && app_views(v@) == p.apps,
            Err(text) => r matches Err(e) && is_protocol(e, text),
        },
{
    let events = read_events(xml);
    fold_apps(&events)
}

/// An app in the list of a host: its id and its title, white space around them aside, are added to
/// the apps before it.
pub proof fn law_app_element(
    p: AppList,
    app: Seq<u8>,
    id: Seq<u8>,
    title: Seq<u8>,
    id_text: Seq<char>,
    title_text: Seq<char>,
)
    requires
        local_part(app) == "App"@,
        local_part(id) == "ID"@,
        local_part(title) == "AppTitle"@,
    ensures
        ({
            let none = Seq::<Option<(Seq<u8>, Seq<u8>)>>::empty();
            let a = after_app_event(p, Ok(EventView::Start { name: app, attributes: none }));
            let b = after_app_event(a->Ok_0, Ok(EventView::Start { name: title, attributes: none }));
            let c = after_app_event(b->Ok_0, Ok(EventView::Text(Ok(title_text))));
            let d = after_app_event(c->Ok_0, Ok(EventView::End));
            let e = after_app_event(d->Ok_0, Ok(EventView::Start { name: id, attributes: none }));
            let f = after_app_event(e->Ok_0, Ok(EventView::Text(Ok(id_text))));
            let g = after_app_event(f->Ok_0, Ok(EventView::End));
            let h = after_app_event(g->Ok_0, Ok(EventView::End));
            &&& a is Ok && b is Ok && c is Ok && d is Ok && e is Ok && f is Ok && g is Ok && h is Ok
            &&& h->Ok_0.apps == p.apps.push((trimmed(id_text), trimmed(title_text)))
            &&& h->Ok_0.open == p.open
        }),
{
    reveal_strlit("App");
    reveal_strlit("ID");
    reveal_strlit("AppTitle");
    assert("ID"@.len() != "App"@.len() && "AppTitle"@.len() != "App"@.len() && "AppTitle"@.len()
        != "ID"@.len());
    let o = p.open.push("App"@);
    assert(o.push("AppTitle"@).drop_last() =~= o);
    assert(o.push("ID"@).drop_last() =~= o);
    assert(o.drop_last() =~= p.open);
}

/// Whether a mode spells a size and a rate, with the letter x between the numbers.
pub open spec fn is_mode(mode: Seq<char>, cfg: LaunchConfig) -> bool {
    let parts = split(mode, 'x');
    &&& parts.len() == 3
    &&& parsed(parts[0], u32::MAX as nat) == Some(cfg.width as nat)
    &&& parsed(parts[1], u32::MAX as nat) == Some(cfg.height as nat)
    &&& parsed(parts[2], u32::MAX as nat) == Some(cfg.fps as nat)
}

/// A request to launch is read back by the names of its parameters: who asks, for which app, at
/// which size and rate, and with which key. Neither name holds an ampersand.
#[verifier::spinoff_prover]
#[verifier::rlimit(60)]
pub proof fn law_launch_request(
    unique_id: Seq<char>,
    app_id: Seq<char>,
    cfg: LaunchConfig,
    key: Seq<u8>,
)
    requires
        is_part(unique_id),
        is_part(app_id),
    ensures
        ({
            let path = launch_request(unique_id, app_id, cfg, key);
            &&& endpoint(path) == "/launch"@
            &&& asks(path, "uniqueid="@, unique_id)
            &&& asks(path, "appid="@, app_id)
            &&& exists|mode: Seq<char>| #[trigger] asks(path, "mode="@, mode) && is_mode(mode, cfg)
            &&& asks(path, "rikey="@, hex_text(key, false))
            &&& asks(path, "additionalStates="@, "1"@)
            &&& asks(path, "sops="@, "0"@)
            &&& asks(path, "rikeyid="@, "12345"@)
            &&& asks(path, "localAudioPlayMode="@, "0"@)
            &&& asks(path, "surroundAudioInfo="@, "196610"@)
            &&& asks(path, "remoteControllersBitmap="@, "0"@)
            &&& asks(path, "gcmap="@, "0"@)
            &&& asks(path, "hdrMode="@, "0"@)
        }),
{
    let path = launch_request(unique_id, app_id, cfg, key);
    let mode = mode_text(cfg);
    let l = launch_parts(unique_id, app_id, mode, hex_text(key, false));
    lemma_mode(cfg);
    lemma_launch_path(unique_id, app_id, cfg, key);
    lemma_launch_parts(unique_id, app_id, mode, key);
    lemma_launch_names(l, unique_id, app_id, mode, hex_text(key, false));
    reveal_strlit("/launch");
    lemma_request(path, "/launch"@, l);
    lemma_values(l, 0, "uniqueid="@, unique_id, 0, 0);
    lemma_values(l, 1, "appid="@, app_id, 0, 1);
    lemma_values(l, 2, "mode="@, mode, 0, 0);
    lemma_values(l, 3, "additionalStates="@, "1"@, 0, 1);
    lemma_values(l, 4, "sops="@, "0"@, 0, 1);
    lemma_values(l, 5, "rikey="@, hex_text(key, false), 1, 5);
    lemma_values(l, 6, "rikeyid="@, "12345"@, 1, 5);
    lemma_values(l, 7, "localAudioPlayMode="@, "0"@, 0, 0);
    lemma_values(l, 8, "surroundAudioInfo="@, "196610"@, 0, 1);
    lemma_values(l, 9, "remoteControllersBitmap="@, "0"@, 0, 1);
    lemma_values(l, 10, "gcmap="@, "0"@, 0, 0);
    lemma_values(l, 11, "hdrMode="@, "0"@, 0, 0);
    assert(asks(path, "mode="@, mode) && is_mode(mode, cfg));
}

spec fn mode_text(cfg: LaunchConfig) -> Seq<char> {
    decimal(cfg.width as nat) + seq!['x'] + decimal(cfg.height as nat) + seq!['x'] + decimal(
        cfg.fps as nat,
    )
}

proof fn lemma_mode(cfg: LaunchConfig)
    ensures
        is_mode(mode_text(cfg), cfg),
        is_part(mode_text(cfg)),
{
    let (w, h, f) = (
        decimal(cfg.width as nat),
        decimal(cfg.height as nat),
        decimal(cfg.fps as nat),
    );
    lemma_decimal(cfg.width as nat);
    lemma_decimal(cfg.height as nat);
    lemma_decimal(cfg.fps as nat);
    assert(!is_digit('x') && !is_digit('&'));
    law_parsed_decimal(cfg.width as nat, u32::MAX as nat);
    law_parsed_decimal(cfg.height as nat, u32::MAX as nat);
    law_parsed_decimal(cfg.fps as nat, u32::MAX as nat);
    let x = seq!['x'];
    lemma_split_first(w, 'x', h + x + f);
    lemma_split_first(h, 'x', f);
    lemma_split_first(f, 'x', f);
    assert(mode_text(cfg) =~= w + x + (h + x + f));
    let parts = split(mode_text(cfg), 'x');
    assert(parts =~= seq![w, h, f]);
    lemma_part_pair(w, x);
    lemma_part_pair(w + x, h);
    lemma_part_pair(w + x + h, x);
    lemma_part_pair(w + x + h + x, f);
}

/// The parameters of a request to launch.
spec fn launch_parts(
    unique_id: Seq<char>,
    app_id: Seq<char>,
    mode: Seq<char>,
    key: Seq<char>,
) -> Seq<Seq<char>> {
    seq![
        "uniqueid="@ + unique_id,
        "appid="@ + app_id,
        "mode="@ + mode,
        "additionalStates="@ + "1"@,
        "sops="@ + "0"@,
        "rikey="@ + key,
        "rikeyid="@ + "12345"@,
        "localAudioPlayMode="@ + "0"@,
        "surroundAudioInfo="@ + "196610"@,
        "remoteControllersBitmap="@ + "0"@,
        "gcmap="@ + "0"@,
        "hdrMode="@ + "0"@,
    ]
}

#[verifier::spinoff_prover]
#[verifier::rlimit(60)]
proof fn lemma_launch_parts(
    unique_id: Seq<char>,
    app_id: Seq<char>,
    mode: Seq<char>,
    key: Seq<u8>,
)
    requires
        is_part(unique_id),
        is_part(app_id),
        is_part(mode),
    ensures
        are_parts(launch_parts(unique_id, app_id, mode, hex_text(key, false)), 12),
{
    reveal_strlit("uniqueid=");
    reveal_strlit("appid=");
    reveal_strlit("mode=");
    reveal_strlit("additionalStates=");
    reveal_strlit("1");
    reveal_strlit("sops=");
    reveal_strlit("0");
    reveal_strlit("rikey=");
    reveal_strlit("rikeyid=");
    reveal_strlit("12345");
    reveal_strlit("localAudioPlayMode=");
    reveal_strlit("surroundAudioInfo=");
    reveal_strlit("196610");
    reveal_strlit("remoteControllersBitmap=");
    reveal_strlit("gcmap=");
    reveal_strlit("hdrMode=");
    lemma_hex_part(key);
    lemma_part_pair("uniqueid="@, unique_id);
    lemma_part_pair("appid="@, app_id);
    lemma_part_pair("mode="@, mode);
    lemma_part_pair("additionalStates="@, "1"@);
    lemma_part_pair("sops="@, "0"@);
    lemma_part_pair("rikey="@, hex_text(key, false));
    lemma_part_pair("rikeyid="@, "12345"@);
    lemma_part_pair("localAudioPlayMode="@, "0"@);
    lemma_part_pair("surroundAudioInfo="@, "196610"@);
    lemma_part_pair("remoteControllersBitmap="@, "0"@);
    lemma_part_pair("gcmap="@, "0"@);
    lemma_part_pair("hdrMode="@, "0"@);
    reveal_with_fuel(are_parts, 13);
}

/// Where each parameter differs from the others.
#[verifier::spinoff_prover]
#[verifier::rlimit(60)]
proof fn lemma_launch_names(
    l: Seq<Seq<char>>,
    unique_id: Seq<char>,
    app_id: Seq<char>,
    mode: Seq<char>,
    key: Seq<char>,
)
    requires
        l == launch_parts(unique_id, app_id, mode, key),
    ensures
        l.len() == 12,
        differ(l, 12, 0, "uniqueid="@, 0, 0) && "uniqueid="@.len() > 5,
        differ(l, 12, 1, "appid="@, 0, 1) && "appid="@.len() > 5,
        differ(l, 12, 2, "mode="@, 0, 0) && "mode="@.len() > 1,
        differ(l, 12, 3, "additionalStates="@, 0, 1) && "additionalStates="@.len() > 5,
        differ(l, 12, 4, "sops="@, 0, 1) && "sops="@.len() > 1,
        differ(l, 12, 5, "rikey="@, 1, 5) && "rikey="@.len() > 5,
        differ(l, 12, 6, "rikeyid="@, 1, 5) && "rikeyid="@.len() > 5,
        differ(l, 12, 7, "localAudioPlayMode="@, 0, 0) && "localAudioPlayMode="@.len() > 5,
        differ(l, 12, 8, "surroundAudioInfo="@, 0, 1) && "surroundAudioInfo="@.len() > 5,
        differ(l, 12, 9, "remoteControllersBitmap="@, 0, 1) && "remoteControllersBitmap="@.len() > 5,
        differ(l, 12, 10, "gcmap="@, 0, 0) && "gcmap="@.len() > 5,
        differ(l, 12, 11, "hdrMode="@, 0, 0) && "hdrMode="@.len() > 5,
{
    reveal_strlit("uniqueid=");
    reveal_strlit("appid=");
    reveal_strlit("mode=");
    reveal_strlit("additionalStates=");
    reveal_strlit("sops=");
    reveal_strlit("rikey=");
    reveal_strlit("rikeyid=");
    reveal_strlit("localAudioPlayMode=");
    reveal_strlit("surroundAudioInfo=");
    reveal_strlit("remoteControllersBitmap=");
    reveal_strlit("gcmap=");
    reveal_strlit("hdrMode=");
    reveal_with_fuel(differ, 13);
}

/// How a request to launch is put together.
#[verifier::spinoff_prover]
#[verifier::rlimit(60)]
proof fn lemma_launch_path(
    unique_id: Seq<char>,
    app_id: Seq<char>,
    cfg: LaunchConfig,
    key: Seq<u8>,
)
    ensures
        launch_request(unique_id, app_id, cfg, key) == "/launch"@ + (seq!['?'] + joined_from(
            launch_parts(unique_id, app_id, mode_text(cfg), hex_text(key, false)),
            0,
        )),
{
    let mode = mode_text(cfg);
    let k = hex_text(key, false);
    let l = launch_parts(unique_id, app_id, mode, k);
    let amp = seq!['&'];
    let path = launch_request(unique_id, app_id, cfg, key);
    assert("x"@ =~= seq!['x']) by {
        reveal_strlit("x");
    }
    assert("/launch?uniqueid="@ =~= "/launch"@ + (seq!['?'] + "uniqueid="@)) by {
        reveal_strlit("/launch?uniqueid=");
        reveal_strlit("/launch");
        reveal_strlit("uniqueid=");
    }
    assert("&appid="@ =~= amp + "appid="@) by {
        reveal_strlit("&appid=");
        reveal_strlit("appid=");
    }
    assert("&mode="@ =~= amp + "mode="@) by {
        reveal_strlit("&mode=");
        reveal_strlit("mode=");
    }
    let states = "additionalStates="@ + "1"@;
    let sops = "sops="@ + "0"@;
    assert("&additionalStates=1&sops=0&rikey="@ =~= amp + states + amp + sops + amp + "rikey="@) by {
        reveal_strlit("&additionalStates=1&sops=0&rikey=");
        reveal_strlit("additionalStates=");
        reveal_strlit("1");
        reveal_strlit("sops=");
        reveal_strlit("0");
        reveal_strlit("rikey=");
    }
    reveal_with_fuel(joined_from, 13);
    let j6 = joined_from(l, 6);
    let j3 = joined_from(l, 3);
    let j2 = joined_from(l, 2);
    let j1 = joined_from(l, 1);
    let tail = "&rikeyid=12345&localAudioPlayMode=0&surroundAudioInfo=196610&remoteControllersBitmap=0&gcmap=0&hdrMode=0"@;
    lemma_launch_tail(l, unique_id, app_id, mode, k);
    assert(tail == amp + j6);
    assert("&additionalStates=1&sops=0&rikey="@ + k + tail =~= amp + j3);
    let head = "/launch?uniqueid="@ + unique_id + "&appid="@ + app_id + "&mode="@;
    assert(path =~= head + (mode + ("&additionalStates=1&sops=0&rikey="@ + k + tail)));
    assert(head + (mode + (amp + j3)) =~= "/launch?uniqueid="@ + unique_id + "&appid="@ + app_id + (amp
        + j2));
    assert("/launch?uniqueid="@ + unique_id + "&appid="@ + app_id + (amp + j2)
        =~= "/launch?uniqueid="@ + unique_id + (amp + j1));
    assert("/launch?uniqueid="@ + unique_id + (amp + j1) =~= "/launch"@ + (seq!['?'] + joined_from(
        l,
        0,
    )));
}

/// The parameters that are always the same.
#[verifier::spinoff_prover]
#[verifier::rlimit(80)]
proof fn lemma_launch_tail(
    l: Seq<Seq<char>>,
    unique_id: Seq<char>,
    app_id: Seq<char>,
    mode: Seq<char>,
    key: Seq<char>,
)
    requires
        l == launch_parts(unique_id, app_id, mode, key),
    ensures
        "&rikeyid=12345&localAudioPlayMode=0&surroundAudioInfo=196610&remoteControllersBitmap=0&gcmap=0&hdrMode=0"@
            == seq!['&'] + joined_from(l, 6),
{
    let amp = seq!['&'];
    let tail = "&rikeyid=12345&localAudioPlayMode=0&surroundAudioInfo=196610&remoteControllersBitmap=0&gcmap=0&hdrMode=0"@;
    let flat = amp + "rikeyid="@ + "12345"@ + amp + "localAudioPlayMode="@ + "0"@ + amp
        + "surroundAudioInfo="@ + "196610"@ + amp + "remoteControllersBitmap="@ + "0"@ + amp
        + "gcmap="@ + "0"@ + amp + "hdrMode="@ + "0"@;
    assert(tail =~= flat) by {
        reveal_strlit(
            "&rikeyid=12345&localAudioPlayMode=0&surroundAudioInfo=196610&remoteControllersBitmap=0&gcmap=0&hdrMode=0",
        );
        reveal_strlit("rikeyid=");
        reveal_strlit("12345");
        reveal_strlit("localAudioPlayMode=");
        reveal_strlit("0");
        reveal_strlit("surroundAudioInfo=");
        reveal_strlit("196610");
        reveal_strlit("remoteControllersBitmap=");
        reveal_strlit("gcmap=");
        reveal_strlit("hdrMode=");
    }
    reveal_with_fuel(joined_from, 7);
    assert(flat =~= amp + joined_from(l, 6));
}

} // verus!
