//! The page that shows what the renderer does.

use vstd::prelude::*;
use vstd::string::*;

use crate::config;
use crate::config::{EndpointModel, NetworkEndpoint};
use crate::net::Ipv4Addr;
use crate::number;
use crate::number::decimal;
use crate::state;
use crate::state::{AVState, AvModel, format_time};
use crate::text;
use crate::time;

verus! {

/// The mark behind an endpoint.
pub open spec fn endpoint_tag(e: EndpointModel) -> Seq<char> {
    if e.is_tailscale {
        "<span style=\"color:#00c853;\">[Tailscale]</span>"@
    } else if e.is_primary {
        "<span style=\"color:#2979ff;\">[Primary/Hotspot]</span>"@
    } else {
        ""@
    }
}

/// The item of the list that tells an endpoint.
pub open spec fn endpoint_item(e: EndpointModel, http_port: u16) -> Seq<char> {
    "<li><strong>"@ + e.name + "</strong>: <code>http://"@ + e.ip.dotted() + ":"@
        + number::decimal_of(http_port as nat) + "/description.xml</code> "@ + endpoint_tag(e)
        + "</li>"@
}

/// The items of the list of endpoints.
pub open spec fn endpoint_items(endpoints: Seq<EndpointModel>, http_port: u16) -> Seq<char>
    decreases endpoints.len(),
{
    if endpoints.len() == 0 {
        Seq::empty()
    } else {
        endpoint_items(endpoints.drop_last(), http_port) + endpoint_item(
            endpoints.last(),
            http_port,
        )
    }
}

/// The items of the list of peers, where there are any.
pub open spec fn listed_peers(peers: Seq<Ipv4Addr>) -> Seq<char>
    decreases peers.len(),
{
    if peers.len() == 0 {
        Seq::empty()
    } else {
        listed_peers(peers.drop_last()) + ("<li><code>"@ + peers.last().dotted()
            + "</code> (notified via unicast)</li>"@)
    }
}

/// The items of the list of peers.
pub open spec fn peer_items(peers: Seq<Ipv4Addr>) -> Seq<char> {
    if peers.len() == 0 {
        "<li><em>No Tailscale peers detected yet.</em></li>"@
    } else {
        listed_peers(peers)
    }
}

/// The page that shows what the renderer does.
pub open spec fn page(
    friendly: Seq<char>,
    av: AvModel,
    endpoints: Seq<EndpointModel>,
    peers: Seq<Ipv4Addr>,
    http_port: u16,
    host: Seq<char>,
) -> Seq<char> {
    let title = if av.title.len() == 0 {
        "No media playing"@
    } else {
        av.title
    };
    let times = state::clock_text(time::whole_secs(av.position)) + "/"@ + state::clock_text(
        time::whole_secs(av.duration),
    );
    "<!DOCTYPE html>
<html>
<head>
    <meta charset=\"utf-8\">
    <meta name=\"viewport\" content=\"width=device-width, initial-scale=1\">
    <title>"@ + friendly + " - DLNA Renderer</title>
    <style>
        body { font-family: -apple-system, BlinkMacSystemFont, 'Segoe UI', Roboto, sans-serif; margin: 0; padding: 24px; background: #121212; color: #e0e0e0; }
        .card { background: #1e1e1e; border-radius: 12px; padding: 20px; margin-bottom: 20px; box-shadow: 0 4px 12px rgba(0,0,0,0.4); max-width: 650px; }
        h1 { margin-top: 0; color: #4fc3f7; font-size: 24px; }
        h2 { color: #b0bec5; font-size: 18px; border-bottom: 1px solid #333; padding-bottom: 6px; }
        .btn { display: inline-block; background: #0288d1; color: white; border: none; padding: 10px 18px; border-radius: 6px; margin: 4px; font-weight: bold; text-decoration: none; cursor: pointer; }
        .btn:hover { background: #039be5; }
        .btn-stop { background: #d32f2f; }
        .btn-stop:hover { background: #e53935; }
        ul { padding-left: 20px; line-height: 1.6; }
        code { background: #263238; padding: 2px 6px; border-radius: 4px; color: #80d8ff; font-size: 13px; }
        .status-badge { display: inline-block; padding: 4px 10px; border-radius: 12px; font-size: 13px; font-weight: bold; background: #37474f; color: #eceff1; }
    </style>
</head>
<body>
    <div class=\"card\">
        <h1>"@ + friendly + "</h1>
        <p><span class=\"status-badge\">"@ + av.transport_state.name() + "</span> <span style=\"margin-left:10px;\">"@ + times + "</span></p>
        <p><strong>Track:</strong> "@ + title + "</p>
        <p><strong>Volume:</strong> "@ + number::decimal_of(av.volume as nat) + "%</p>
        <div style=\"margin-top: 15px;\">
            <a href=\"/api/play\" class=\"btn\">&#9654; Play</a>
            <a href=\"/api/pause\" class=\"btn\">&#10074;&#10074; Pause</a>
            <a href=\"/api/stop\" class=\"btn btn-stop\">&#9632; Stop</a>
        </div>
    </div>

    <div class=\"card\">
        <h2>Network Endpoints (Reachable by Phone)</h2>
        <p>BubbleUPnP or any DLNA controller can access this renderer at:</p>
        <ul>"@ + endpoint_items(endpoints, http_port) + "</ul>
        <p style=\"font-size: 12px; color: #90a4ae;\">Current request host: <code>"@ + host + "</code></p>
    </div>

    <div class=\"card\">
        <h2>Tailscale & Hotspot Peers</h2>
        <ul>"@ + peer_items(peers) + "</ul>
        <form action=\"/api/peer\" method=\"get\" style=\"margin-top: 10px;\">
            <input type=\"text\" name=\"ip\" placeholder=\"e.g. 100.80.1.2 or 192.168.43.1\" style=\"padding: 8px; border-radius: 4px; border: 1px solid #455a64; background: #263238; color: white; width: 220px;\">
            <button type=\"submit\" class=\"btn\" style=\"padding: 8px 14px;\">Add & Notify Peer</button>
        </form>
    </div>
</body>
</html>"@
}

fn write_endpoints(endpoints: &[NetworkEndpoint], http_port: u16) -> (r: String)
    ensures
        r@ == endpoint_items(config::models(endpoints@), http_port),
{
    let mut out = String::new();
    let ghost m = config::models(endpoints@);
    for i in 0..endpoints.len()
        invariant
            m == config::models(endpoints@),
            out@ == endpoint_items(m.take(i as int), http_port),
    {
        let e: &NetworkEndpoint = &endpoints[i];
        assert(m[i as int] == e@);
        assert(m.take(i + 1).drop_last() =~= m.take(i as int));
        let mut s = "<li><strong>".to_owned();
        s.append(e.name.as_str());
        s.append("</strong>: <code>http://");
        s.append(e.ip.to_text().as_str());
        s.append(":");
        s.append(decimal(http_port as u64).as_str());
        s.append("/description.xml</code> ");
        s.append(
            if e.is_tailscale {
                "<span style=\"color:#00c853;\">[Tailscale]</span>"
            } else if e.is_primary {
                "<span style=\"color:#2979ff;\">[Primary/Hotspot]</span>"
            } else {
                ""
            },
        );
        s.append("</li>");
        out.append(s.as_str());
    }
    assert(m.take(m.len() as int) =~= m);
    out
}

fn write_peers(peers: &[Ipv4Addr]) -> (r: String)
    ensures
        r@ == peer_items(peers@),
{
    if peers.len() == 0 {
        return "<li><em>No Tailscale peers detected yet.</em></li>".to_owned();
    }
    let mut out = String::new();
    for i in 0..peers.len()
        invariant
            out@ == listed_peers(peers@.take(i as int)),
    {
        assert(peers@.take(i + 1).drop_last() =~= peers@.take(i as int));
        let mut s = "<li><code>".to_owned();
        s.append(peers[i].to_text().as_str());
        s.append("</code> (notified via unicast)</li>");
        out.append(s.as_str());
    }
    assert(peers@.take(peers@.len() as int) =~= peers@);
    out
}

/// The page that shows what the renderer does, for a request with the given `Host` header.
pub fn dashboard(
    friendly: &str,
    av: &AVState,
    endpoints: &[NetworkEndpoint],
    peers: &[Ipv4Addr],
    http_port: u16,
    host: &str,
) -> (r: String)
    ensures
        r@ == page(
            friendly@,
            av@,
            config::models(endpoints@),
            peers@,
            http_port,
            host@,
        ),
{
    let title: &str = if av.title.as_str().is_empty() {
        "No media playing"
    } else {
        av.title.as_str()
    };
    let mut times = format_time(av.position);
    times.append("/");
    times.append(format_time(av.duration).as_str());
    let mut s = "<!DOCTYPE html>
<html>
<head>
    <meta charset=\"utf-8\">
    <meta name=\"viewport\" content=\"width=device-width, initial-scale=1\">
    <title>".to_owned();
    s.append(friendly);
    s.append(" - DLNA Renderer</title>
    <style>
        body { font-family: -apple-system, BlinkMacSystemFont, 'Segoe UI', Roboto, sans-serif; margin: 0; padding: 24px; background: #121212; color: #e0e0e0; }
        .card { background: #1e1e1e; border-radius: 12px; padding: 20px; margin-bottom: 20px; box-shadow: 0 4px 12px rgba(0,0,0,0.4); max-width: 650px; }
        h1 { margin-top: 0; color: #4fc3f7; font-size: 24px; }
        h2 { color: #b0bec5; font-size: 18px; border-bottom: 1px solid #333; padding-bottom: 6px; }
        .btn { display: inline-block; background: #0288d1; color: white; border: none; padding: 10px 18px; border-radius: 6px; margin: 4px; font-weight: bold; text-decoration: none; cursor: pointer; }
        .btn:hover { background: #039be5; }
        .btn-stop { background: #d32f2f; }
        .btn-stop:hover { background: #e53935; }
        ul { padding-left: 20px; line-height: 1.6; }
        code { background: #263238; padding: 2px 6px; border-radius: 4px; color: #80d8ff; font-size: 13px; }
        .status-badge { display: inline-block; padding: 4px 10px; border-radius: 12px; font-size: 13px; font-weight: bold; background: #37474f; color: #eceff1; }
    </style>
</head>
<body>
    <div class=\"card\">
        <h1>");
    s.append(friendly);
    s.append("</h1>
        <p><span class=\"status-badge\">");
    s.append(av.transport_state.as_str());
    s.append("</span> <span style=\"margin-left:10px;\">");
    s.append(times.as_str());
    s.append("</span></p>
        <p><strong>Track:</strong> ");
    s.append(title);
    s.append("</p>
        <p><strong>Volume:</strong> ");
    s.append(decimal(av.volume as u64).as_str());
    s.append("%</p>
        <div style=\"margin-top: 15px;\">
            <a href=\"/api/play\" class=\"btn\">&#9654; Play</a>
            <a href=\"/api/pause\" class=\"btn\">&#10074;&#10074; Pause</a>
            <a href=\"/api/stop\" class=\"btn btn-stop\">&#9632; Stop</a>
        </div>
    </div>

    <div class=\"card\">
        <h2>Network Endpoints (Reachable by Phone)</h2>
        <p>BubbleUPnP or any DLNA controller can access this renderer at:</p>
        <ul>");
    s.append(write_endpoints(endpoints, http_port).as_str());
    s.append("</ul>
        <p style=\"font-size: 12px; color: #90a4ae;\">Current request host: <code>");
    s.append(host);
    s.append("</code></p>
    </div>

    <div class=\"card\">
        <h2>Tailscale & Hotspot Peers</h2>
        <ul>");
    s.append(write_peers(peers).as_str());
    s.append("</ul>
        <form action=\"/api/peer\" method=\"get\" style=\"margin-top: 10px;\">
            <input type=\"text\" name=\"ip\" placeholder=\"e.g. 100.80.1.2 or 192.168.43.1\" style=\"padding: 8px; border-radius: 4px; border: 1px solid #455a64; background: #263238; color: white; width: 220px;\">
            <button type=\"submit\" class=\"btn\" style=\"padding: 8px 14px;\">Add & Notify Peer</button>
        </form>
    </div>
</body>
</html>");
    s
}

// ---------------------------------------------------------------------------------------------
// Laws
// ---------------------------------------------------------------------------------------------
/// The first `n` fixed parts, each with its value behind it.
spec fn woven(a: Seq<Seq<char>>, x: Seq<Seq<char>>, n: nat) -> Seq<char>
    decreases n,
{
    if n == 0 {
        Seq::empty()
    } else {
        woven(a, x, (n - 1) as nat) + a[n - 1] + x[n - 1]
    }
}

proof fn lemma_woven_told(
    a: Seq<Seq<char>>,
    x: Seq<Seq<char>>,
    n: nat,
    k: int,
    open: Seq<char>,
    close: Seq<char>,
)
    requires
        0 <= k < n,
        a[k].len() >= open.len(),
        a[k].skip(a[k].len() - open.len()) == open,
        text::starts_with(a[k + 1], close),
    ensures
        text::contains(woven(a, x, n) + a[n as int], open + x[k] + close),
    decreases n,
{
    let none = Seq::<char>::empty();
    let m = (n - 1) as nat;
    let before = woven(a, x, m);
    if k == n - 1 {
        text::lemma_contains_between(before, a[k], x[k], a[k + 1], none, open, close);
        assert(before + a[k] + x[k] + a[k + 1] + none =~= woven(a, x, n) + a[n as int]);
    } else {
        lemma_woven_told(a, x, m, k, open, close);
        let short = before + a[m as int];
        let rest = x[n - 1] + a[n as int];
        text::lemma_contains_within(none, short, rest, open + x[k] + close);
        assert(none + short + rest =~= woven(a, x, n) + a[n as int]);
    }
}

/// The page tells the name, the transport state, the position and the length, the title, the
/// volume, the endpoints, the host that was asked, and the peers, each in its own place.
pub proof fn lemma_page_tells(
    friendly: Seq<char>,
    av: AvModel,
    endpoints: Seq<EndpointModel>,
    peers: Seq<Ipv4Addr>,
    http_port: u16,
    host: Seq<char>,
)
    ensures
        ({
            let title = if av.title.len() == 0 {
                "No media playing"@
            } else {
                av.title
            };
            let times = state::clock_text(av.position / 1_000_000_000) + "/"@ + state::clock_text(
                av.duration / 1_000_000_000,
            );
            let whole = page(friendly, av, endpoints, peers, http_port, host);
            &&& text::contains(whole, "<title>"@ + friendly + " - DLNA Renderer</title>"@)
            &&& text::contains(whole, "<h1>"@ + friendly + "</h1>"@)
            &&& text::contains(whole, "<span class=\"status-badge\">"@ + av.transport_state.name() + "</span>"@)
            &&& text::contains(whole, "<span style=\"margin-left:10px;\">"@ + times + "</span>"@)
            &&& text::contains(whole, "<strong>Track:</strong> "@ + title + "</p>"@)
            &&& text::contains(whole, "<strong>Volume:</strong> "@ + number::decimal_of(av.volume as nat) + "%</p>"@)
            &&& text::contains(whole, "<ul>"@ + endpoint_items(endpoints, http_port) + "</ul>"@)
            &&& text::contains(whole, "Current request host: <code>"@ + host + "</code>"@)
            &&& text::contains(whole, "<ul>"@ + peer_items(peers) + "</ul>"@)
        }),
{
    let title = if av.title.len() == 0 {
        "No media playing"@
    } else {
        av.title
    };
    let times = state::clock_text(av.position / 1_000_000_000) + "/"@ + state::clock_text(
        av.duration / 1_000_000_000,
    );
    let a = seq![
        "<!DOCTYPE html>
<html>
<head>
    <meta charset=\"utf-8\">
    <meta name=\"viewport\" content=\"width=device-width, initial-scale=1\">
    <title>"@,
        " - DLNA Renderer</title>
    <style>
        body { font-family: -apple-system, BlinkMacSystemFont, 'Segoe UI', Roboto, sans-serif; margin: 0; padding: 24px; background: #121212; color: #e0e0e0; }
        .card { background: #1e1e1e; border-radius: 12px; padding: 20px; margin-bottom: 20px; box-shadow: 0 4px 12px rgba(0,0,0,0.4); max-width: 650px; }
        h1 { margin-top: 0; color: #4fc3f7; font-size: 24px; }
        h2 { color: #b0bec5; font-size: 18px; border-bottom: 1px solid #333; padding-bottom: 6px; }
        .btn { display: inline-block; background: #0288d1; color: white; border: none; padding: 10px 18px; border-radius: 6px; margin: 4px; font-weight: bold; text-decoration: none; cursor: pointer; }
        .btn:hover { background: #039be5; }
        .btn-stop { background: #d32f2f; }
        .btn-stop:hover { background: #e53935; }
        ul { padding-left: 20px; line-height: 1.6; }
        code { background: #263238; padding: 2px 6px; border-radius: 4px; color: #80d8ff; font-size: 13px; }
        .status-badge { display: inline-block; padding: 4px 10px; border-radius: 12px; font-size: 13px; font-weight: bold; background: #37474f; color: #eceff1; }
    </style>
</head>
<body>
    <div class=\"card\">
        <h1>"@,
        "</h1>
        <p><span class=\"status-badge\">"@,
        "</span> <span style=\"margin-left:10px;\">"@,
        "</span></p>
        <p><strong>Track:</strong> "@,
        "</p>
        <p><strong>Volume:</strong> "@,
        "%</p>
        <div style=\"margin-top: 15px;\">
            <a href=\"/api/play\" class=\"btn\">&#9654; Play</a>
            <a href=\"/api/pause\" class=\"btn\">&#10074;&#10074; Pause</a>
            <a href=\"/api/stop\" class=\"btn btn-stop\">&#9632; Stop</a>
        </div>
    </div>

    <div class=\"card\">
        <h2>Network Endpoints (Reachable by Phone)</h2>
        <p>BubbleUPnP or any DLNA controller can access this renderer at:</p>
        <ul>"@,
        "</ul>
        <p style=\"font-size: 12px; color: #90a4ae;\">Current request host: <code>"@,
        "</code></p>
    </div>

    <div class=\"card\">
        <h2>Tailscale & Hotspot Peers</h2>
        <ul>"@,
        "</ul>
        <form action=\"/api/peer\" method=\"get\" style=\"margin-top: 10px;\">
            <input type=\"text\" name=\"ip\" placeholder=\"e.g. 100.80.1.2 or 192.168.43.1\" style=\"padding: 8px; border-radius: 4px; border: 1px solid #455a64; background: #263238; color: white; width: 220px;\">
            <button type=\"submit\" class=\"btn\" style=\"padding: 8px 14px;\">Add & Notify Peer</button>
        </form>
    </div>
</body>
</html>"@,
    ];
    let x = seq![
        friendly,
        friendly,
        av.transport_state.name(),
        times,
        title,
        number::decimal_of(av.volume as nat),
        endpoint_items(endpoints, http_port),
        host,
        peer_items(peers),
    ];
    lemma_page_woven(friendly, av, endpoints, peers, http_port, host, a, x, title, times);
    assert(text::contains(woven(a, x, 9) + a[9], "<title>"@ + x[0] + " - DLNA Renderer</title>"@)) by {
        lemma_page_part_0();
        lemma_woven_told(a, x, 9, 0, "<title>"@, " - DLNA Renderer</title>"@);
    }
    assert(text::contains(woven(a, x, 9) + a[9], "<h1>"@ + x[1] + "</h1>"@)) by {
        lemma_page_part_1();
        lemma_woven_told(a, x, 9, 1, "<h1>"@, "</h1>"@);
    }
    assert(text::contains(woven(a, x, 9) + a[9], "<span class=\"status-badge\">"@ + x[2] + "</span>"@)) by {
        lemma_page_part_2();
        lemma_woven_told(a, x, 9, 2, "<span class=\"status-badge\">"@, "</span>"@);
    }
    assert(text::contains(woven(a, x, 9) + a[9], "<span style=\"margin-left:10px;\">"@ + x[3] + "</span>"@)) by {
        lemma_page_part_3();
        lemma_woven_told(a, x, 9, 3, "<span style=\"margin-left:10px;\">"@, "</span>"@);
    }
    assert(text::contains(woven(a, x, 9) + a[9], "<strong>Track:</strong> "@ + x[4] + "</p>"@)) by {
        lemma_page_part_4();
        lemma_woven_told(a, x, 9, 4, "<strong>Track:</strong> "@, "</p>"@);
    }
    assert(text::contains(woven(a, x, 9) + a[9], "<strong>Volume:</strong> "@ + x[5] + "%</p>"@)) by {
        lemma_page_part_5();
        lemma_woven_told(a, x, 9, 5, "<strong>Volume:</strong> "@, "%</p>"@);
    }
    assert(text::contains(woven(a, x, 9) + a[9], "<ul>"@ + x[6] + "</ul>"@)) by {
        lemma_page_part_6();
        lemma_woven_told(a, x, 9, 6, "<ul>"@, "</ul>"@);
    }
    assert(text::contains(woven(a, x, 9) + a[9], "Current request host: <code>"@ + x[7] + "</code>"@)) by {
        lemma_page_part_7();
        lemma_woven_told(a, x, 9, 7, "Current request host: <code>"@, "</code>"@);
    }
    assert(text::contains(woven(a, x, 9) + a[9], "<ul>"@ + x[8] + "</ul>"@)) by {
        lemma_page_part_8();
        lemma_woven_told(a, x, 9, 8, "<ul>"@, "</ul>"@);
    }
}

proof fn lemma_page_part_0()
    ensures
        "<!DOCTYPE html>
<html>
<head>
    <meta charset=\"utf-8\">
    <meta name=\"viewport\" content=\"width=device-width, initial-scale=1\">
    <title>"@.len() >= "<title>"@.len(),
        "<!DOCTYPE html>
<html>
<head>
    <meta charset=\"utf-8\">
    <meta name=\"viewport\" content=\"width=device-width, initial-scale=1\">
    <title>"@.skip("<!DOCTYPE html>
<html>
<head>
    <meta charset=\"utf-8\">
    <meta name=\"viewport\" content=\"width=device-width, initial-scale=1\">
    <title>"@.len() - "<title>"@.len()) == "<title>"@,
        text::starts_with(" - DLNA Renderer</title>
    <style>
        body { font-family: -apple-system, BlinkMacSystemFont, 'Segoe UI', Roboto, sans-serif; margin: 0; padding: 24px; background: #121212; color: #e0e0e0; }
        .card { background: #1e1e1e; border-radius: 12px; padding: 20px; margin-bottom: 20px; box-shadow: 0 4px 12px rgba(0,0,0,0.4); max-width: 650px; }
        h1 { margin-top: 0; color: #4fc3f7; font-size: 24px; }
        h2 { color: #b0bec5; font-size: 18px; border-bottom: 1px solid #333; padding-bottom: 6px; }
        .btn { display: inline-block; background: #0288d1; color: white; border: none; padding: 10px 18px; border-radius: 6px; margin: 4px; font-weight: bold; text-decoration: none; cursor: pointer; }
        .btn:hover { background: #039be5; }
        .btn-stop { background: #d32f2f; }
        .btn-stop:hover { background: #e53935; }
        ul { padding-left: 20px; line-height: 1.6; }
        code { background: #263238; padding: 2px 6px; border-radius: 4px; color: #80d8ff; font-size: 13px; }
        .status-badge { display: inline-block; padding: 4px 10px; border-radius: 12px; font-size: 13px; font-weight: bold; background: #37474f; color: #eceff1; }
    </style>
</head>
<body>
    <div class=\"card\">
        <h1>"@, " - DLNA Renderer</title>"@),
{
    reveal_strlit("<!DOCTYPE html>
<html>
<head>
    <meta charset=\"utf-8\">
    <meta name=\"viewport\" content=\"width=device-width, initial-scale=1\">
    <title>");
    reveal_strlit(" - DLNA Renderer</title>
    <style>
        body { font-family: -apple-system, BlinkMacSystemFont, 'Segoe UI', Roboto, sans-serif; margin: 0; padding: 24px; background: #121212; color: #e0e0e0; }
        .card { background: #1e1e1e; border-radius: 12px; padding: 20px; margin-bottom: 20px; box-shadow: 0 4px 12px rgba(0,0,0,0.4); max-width: 650px; }
        h1 { margin-top: 0; color: #4fc3f7; font-size: 24px; }
        h2 { color: #b0bec5; font-size: 18px; border-bottom: 1px solid #333; padding-bottom: 6px; }
        .btn { display: inline-block; background: #0288d1; color: white; border: none; padding: 10px 18px; border-radius: 6px; margin: 4px; font-weight: bold; text-decoration: none; cursor: pointer; }
        .btn:hover { background: #039be5; }
        .btn-stop { background: #d32f2f; }
        .btn-stop:hover { background: #e53935; }
        ul { padding-left: 20px; line-height: 1.6; }
        code { background: #263238; padding: 2px 6px; border-radius: 4px; color: #80d8ff; font-size: 13px; }
        .status-badge { display: inline-block; padding: 4px 10px; border-radius: 12px; font-size: 13px; font-weight: bold; background: #37474f; color: #eceff1; }
    </style>
</head>
<body>
    <div class=\"card\">
        <h1>");
    reveal_strlit("<title>");
    reveal_strlit(" - DLNA Renderer</title>");
    assert("<!DOCTYPE html>
<html>
<head>
    <meta charset=\"utf-8\">
    <meta name=\"viewport\" content=\"width=device-width, initial-scale=1\">
    <title>"@.skip("<!DOCTYPE html>
<html>
<head>
    <meta charset=\"utf-8\">
    <meta name=\"viewport\" content=\"width=device-width, initial-scale=1\">
    <title>"@.len() - "<title>"@.len()) =~= "<title>"@);
    assert(" - DLNA Renderer</title>
    <style>
        body { font-family: -apple-system, BlinkMacSystemFont, 'Segoe UI', Roboto, sans-serif; margin: 0; padding: 24px; background: #121212; color: #e0e0e0; }
        .card { background: #1e1e1e; border-radius: 12px; padding: 20px; margin-bottom: 20px; box-shadow: 0 4px 12px rgba(0,0,0,0.4); max-width: 650px; }
        h1 { margin-top: 0; color: #4fc3f7; font-size: 24px; }
        h2 { color: #b0bec5; font-size: 18px; border-bottom: 1px solid #333; padding-bottom: 6px; }
        .btn { display: inline-block; background: #0288d1; color: white; border: none; padding: 10px 18px; border-radius: 6px; margin: 4px; font-weight: bold; text-decoration: none; cursor: pointer; }
        .btn:hover { background: #039be5; }
        .btn-stop { background: #d32f2f; }
        .btn-stop:hover { background: #e53935; }
        ul { padding-left: 20px; line-height: 1.6; }
        code { background: #263238; padding: 2px 6px; border-radius: 4px; color: #80d8ff; font-size: 13px; }
        .status-badge { display: inline-block; padding: 4px 10px; border-radius: 12px; font-size: 13px; font-weight: bold; background: #37474f; color: #eceff1; }
    </style>
</head>
<body>
    <div class=\"card\">
        <h1>"@.subrange(0, " - DLNA Renderer</title>"@.len() as int) =~= " - DLNA Renderer</title>"@);
}

proof fn lemma_page_part_1()
    ensures
        " - DLNA Renderer</title>
    <style>
        body { font-family: -apple-system, BlinkMacSystemFont, 'Segoe UI', Roboto, sans-serif; margin: 0; padding: 24px; background: #121212; color: #e0e0e0; }
        .card { background: #1e1e1e; border-radius: 12px; padding: 20px; margin-bottom: 20px; box-shadow: 0 4px 12px rgba(0,0,0,0.4); max-width: 650px; }
        h1 { margin-top: 0; color: #4fc3f7; font-size: 24px; }
        h2 { color: #b0bec5; font-size: 18px; border-bottom: 1px solid #333; padding-bottom: 6px; }
        .btn { display: inline-block; background: #0288d1; color: white; border: none; padding: 10px 18px; border-radius: 6px; margin: 4px; font-weight: bold; text-decoration: none; cursor: pointer; }
        .btn:hover { background: #039be5; }
        .btn-stop { background: #d32f2f; }
        .btn-stop:hover { background: #e53935; }
        ul { padding-left: 20px; line-height: 1.6; }
        code { background: #263238; padding: 2px 6px; border-radius: 4px; color: #80d8ff; font-size: 13px; }
        .status-badge { display: inline-block; padding: 4px 10px; border-radius: 12px; font-size: 13px; font-weight: bold; background: #37474f; color: #eceff1; }
    </style>
</head>
<body>
    <div class=\"card\">
        <h1>"@.len() >= "<h1>"@.len(),
        " - DLNA Renderer</title>
    <style>
        body { font-family: -apple-system, BlinkMacSystemFont, 'Segoe UI', Roboto, sans-serif; margin: 0; padding: 24px; background: #121212; color: #e0e0e0; }
        .card { background: #1e1e1e; border-radius: 12px; padding: 20px; margin-bottom: 20px; box-shadow: 0 4px 12px rgba(0,0,0,0.4); max-width: 650px; }
        h1 { margin-top: 0; color: #4fc3f7; font-size: 24px; }
        h2 { color: #b0bec5; font-size: 18px; border-bottom: 1px solid #333; padding-bottom: 6px; }
        .btn { display: inline-block; background: #0288d1; color: white; border: none; padding: 10px 18px; border-radius: 6px; margin: 4px; font-weight: bold; text-decoration: none; cursor: pointer; }
        .btn:hover { background: #039be5; }
        .btn-stop { background: #d32f2f; }
        .btn-stop:hover { background: #e53935; }
        ul { padding-left: 20px; line-height: 1.6; }
        code { background: #263238; padding: 2px 6px; border-radius: 4px; color: #80d8ff; font-size: 13px; }
        .status-badge { display: inline-block; padding: 4px 10px; border-radius: 12px; font-size: 13px; font-weight: bold; background: #37474f; color: #eceff1; }
    </style>
</head>
<body>
    <div class=\"card\">
        <h1>"@.skip(" - DLNA Renderer</title>
    <style>
        body { font-family: -apple-system, BlinkMacSystemFont, 'Segoe UI', Roboto, sans-serif; margin: 0; padding: 24px; background: #121212; color: #e0e0e0; }
        .card { background: #1e1e1e; border-radius: 12px; padding: 20px; margin-bottom: 20px; box-shadow: 0 4px 12px rgba(0,0,0,0.4); max-width: 650px; }
        h1 { margin-top: 0; color: #4fc3f7; font-size: 24px; }
        h2 { color: #b0bec5; font-size: 18px; border-bottom: 1px solid #333; padding-bottom: 6px; }
        .btn { display: inline-block; background: #0288d1; color: white; border: none; padding: 10px 18px; border-radius: 6px; margin: 4px; font-weight: bold; text-decoration: none; cursor: pointer; }
        .btn:hover { background: #039be5; }
        .btn-stop { background: #d32f2f; }
        .btn-stop:hover { background: #e53935; }
        ul { padding-left: 20px; line-height: 1.6; }
        code { background: #263238; padding: 2px 6px; border-radius: 4px; color: #80d8ff; font-size: 13px; }
        .status-badge { display: inline-block; padding: 4px 10px; border-radius: 12px; font-size: 13px; font-weight: bold; background: #37474f; color: #eceff1; }
    </style>
</head>
<body>
    <div class=\"card\">
        <h1>"@.len() - "<h1>"@.len()) == "<h1>"@,
        text::starts_with("</h1>
        <p><span class=\"status-badge\">"@, "</h1>"@),
{
    reveal_strlit(" - DLNA Renderer</title>
    <style>
        body { font-family: -apple-system, BlinkMacSystemFont, 'Segoe UI', Roboto, sans-serif; margin: 0; padding: 24px; background: #121212; color: #e0e0e0; }
        .card { background: #1e1e1e; border-radius: 12px; padding: 20px; margin-bottom: 20px; box-shadow: 0 4px 12px rgba(0,0,0,0.4); max-width: 650px; }
        h1 { margin-top: 0; color: #4fc3f7; font-size: 24px; }
        h2 { color: #b0bec5; font-size: 18px; border-bottom: 1px solid #333; padding-bottom: 6px; }
        .btn { display: inline-block; background: #0288d1; color: white; border: none; padding: 10px 18px; border-radius: 6px; margin: 4px; font-weight: bold; text-decoration: none; cursor: pointer; }
        .btn:hover { background: #039be5; }
        .btn-stop { background: #d32f2f; }
        .btn-stop:hover { background: #e53935; }
        ul { padding-left: 20px; line-height: 1.6; }
        code { background: #263238; padding: 2px 6px; border-radius: 4px; color: #80d8ff; font-size: 13px; }
        .status-badge { display: inline-block; padding: 4px 10px; border-radius: 12px; font-size: 13px; font-weight: bold; background: #37474f; color: #eceff1; }
    </style>
</head>
<body>
    <div class=\"card\">
        <h1>");
    reveal_strlit("</h1>
        <p><span class=\"status-badge\">");
    reveal_strlit("<h1>");
    reveal_strlit("</h1>");
    assert(" - DLNA Renderer</title>
    <style>
        body { font-family: -apple-system, BlinkMacSystemFont, 'Segoe UI', Roboto, sans-serif; margin: 0; padding: 24px; background: #121212; color: #e0e0e0; }
        .card { background: #1e1e1e; border-radius: 12px; padding: 20px; margin-bottom: 20px; box-shadow: 0 4px 12px rgba(0,0,0,0.4); max-width: 650px; }
        h1 { margin-top: 0; color: #4fc3f7; font-size: 24px; }
        h2 { color: #b0bec5; font-size: 18px; border-bottom: 1px solid #333; padding-bottom: 6px; }
        .btn { display: inline-block; background: #0288d1; color: white; border: none; padding: 10px 18px; border-radius: 6px; margin: 4px; font-weight: bold; text-decoration: none; cursor: pointer; }
        .btn:hover { background: #039be5; }
        .btn-stop { background: #d32f2f; }
        .btn-stop:hover { background: #e53935; }
        ul { padding-left: 20px; line-height: 1.6; }
        code { background: #263238; padding: 2px 6px; border-radius: 4px; color: #80d8ff; font-size: 13px; }
        .status-badge { display: inline-block; padding: 4px 10px; border-radius: 12px; font-size: 13px; font-weight: bold; background: #37474f; color: #eceff1; }
    </style>
</head>
<body>
    <div class=\"card\">
        <h1>"@.skip(" - DLNA Renderer</title>
    <style>
        body { font-family: -apple-system, BlinkMacSystemFont, 'Segoe UI', Roboto, sans-serif; margin: 0; padding: 24px; background: #121212; color: #e0e0e0; }
        .card { background: #1e1e1e; border-radius: 12px; padding: 20px; margin-bottom: 20px; box-shadow: 0 4px 12px rgba(0,0,0,0.4); max-width: 650px; }
        h1 { margin-top: 0; color: #4fc3f7; font-size: 24px; }
        h2 { color: #b0bec5; font-size: 18px; border-bottom: 1px solid #333; padding-bottom: 6px; }
        .btn { display: inline-block; background: #0288d1; color: white; border: none; padding: 10px 18px; border-radius: 6px; margin: 4px; font-weight: bold; text-decoration: none; cursor: pointer; }
        .btn:hover { background: #039be5; }
        .btn-stop { background: #d32f2f; }
        .btn-stop:hover { background: #e53935; }
        ul { padding-left: 20px; line-height: 1.6; }
        code { background: #263238; padding: 2px 6px; border-radius: 4px; color: #80d8ff; font-size: 13px; }
        .status-badge { display: inline-block; padding: 4px 10px; border-radius: 12px; font-size: 13px; font-weight: bold; background: #37474f; color: #eceff1; }
    </style>
</head>
<body>
    <div class=\"card\">
        <h1>"@.len() - "<h1>"@.len()) =~= "<h1>"@);
    assert("</h1>
        <p><span class=\"status-badge\">"@.subrange(0, "</h1>"@.len() as int) =~= "</h1>"@);
}

proof fn lemma_page_part_2()
    ensures
        "</h1>
        <p><span class=\"status-badge\">"@.len() >= "<span class=\"status-badge\">"@.len(),
        "</h1>
        <p><span class=\"status-badge\">"@.skip("</h1>
        <p><span class=\"status-badge\">"@.len() - "<span class=\"status-badge\">"@.len()) == "<span class=\"status-badge\">"@,
        text::starts_with("</span> <span style=\"margin-left:10px;\">"@, "</span>"@),
{
    reveal_strlit("</h1>
        <p><span class=\"status-badge\">");
    reveal_strlit("</span> <span style=\"margin-left:10px;\">");
    reveal_strlit("<span class=\"status-badge\">");
    reveal_strlit("</span>");
    assert("</h1>
        <p><span class=\"status-badge\">"@.skip("</h1>
        <p><span class=\"status-badge\">"@.len() - "<span class=\"status-badge\">"@.len()) =~= "<span class=\"status-badge\">"@);
    assert("</span> <span style=\"margin-left:10px;\">"@.subrange(0, "</span>"@.len() as int) =~= "</span>"@);
}

proof fn lemma_page_part_3()
    ensures
        "</span> <span style=\"margin-left:10px;\">"@.len() >= "<span style=\"margin-left:10px;\">"@.len(),
        "</span> <span style=\"margin-left:10px;\">"@.skip("</span> <span style=\"margin-left:10px;\">"@.len() - "<span style=\"margin-left:10px;\">"@.len()) == "<span style=\"margin-left:10px;\">"@,
        text::starts_with("</span></p>
        <p><strong>Track:</strong> "@, "</span>"@),
{
    reveal_strlit("</span> <span style=\"margin-left:10px;\">");
    reveal_strlit("</span></p>
        <p><strong>Track:</strong> ");
    reveal_strlit("<span style=\"margin-left:10px;\">");
    reveal_strlit("</span>");
    assert("</span> <span style=\"margin-left:10px;\">"@.skip("</span> <span style=\"margin-left:10px;\">"@.len() - "<span style=\"margin-left:10px;\">"@.len()) =~= "<span style=\"margin-left:10px;\">"@);
    assert("</span></p>
        <p><strong>Track:</strong> "@.subrange(0, "</span>"@.len() as int) =~= "</span>"@);
}

proof fn lemma_page_part_4()
    ensures
        "</span></p>
        <p><strong>Track:</strong> "@.len() >= "<strong>Track:</strong> "@.len(),
        "</span></p>
        <p><strong>Track:</strong> "@.skip("</span></p>
        <p><strong>Track:</strong> "@.len() - "<strong>Track:</strong> "@.len()) == "<strong>Track:</strong> "@,
        text::starts_with("</p>
        <p><strong>Volume:</strong> "@, "</p>"@),
{
    reveal_strlit("</span></p>
        <p><strong>Track:</strong> ");
    reveal_strlit("</p>
        <p><strong>Volume:</strong> ");
    reveal_strlit("<strong>Track:</strong> ");
    reveal_strlit("</p>");
    assert("</span></p>
        <p><strong>Track:</strong> "@.skip("</span></p>
        <p><strong>Track:</strong> "@.len() - "<strong>Track:</strong> "@.len()) =~= "<strong>Track:</strong> "@);
    assert("</p>
        <p><strong>Volume:</strong> "@.subrange(0, "</p>"@.len() as int) =~= "</p>"@);
}

proof fn lemma_page_part_5()
    ensures
        "</p>
        <p><strong>Volume:</strong> "@.len() >= "<strong>Volume:</strong> "@.len(),
        "</p>
        <p><strong>Volume:</strong> "@.skip("</p>
        <p><strong>Volume:</strong> "@.len() - "<strong>Volume:</strong> "@.len()) == "<strong>Volume:</strong> "@,
        text::starts_with("%</p>
        <div style=\"margin-top: 15px;\">
            <a href=\"/api/play\" class=\"btn\">&#9654; Play</a>
            <a href=\"/api/pause\" class=\"btn\">&#10074;&#10074; Pause</a>
            <a href=\"/api/stop\" class=\"btn btn-stop\">&#9632; Stop</a>
        </div>
    </div>

    <div class=\"card\">
        <h2>Network Endpoints (Reachable by Phone)</h2>
        <p>BubbleUPnP or any DLNA controller can access this renderer at:</p>
        <ul>"@, "%</p>"@),
{
    reveal_strlit("</p>
        <p><strong>Volume:</strong> ");
    reveal_strlit("%</p>
        <div style=\"margin-top: 15px;\">
            <a href=\"/api/play\" class=\"btn\">&#9654; Play</a>
            <a href=\"/api/pause\" class=\"btn\">&#10074;&#10074; Pause</a>
            <a href=\"/api/stop\" class=\"btn btn-stop\">&#9632; Stop</a>
        </div>
    </div>

    <div class=\"card\">
        <h2>Network Endpoints (Reachable by Phone)</h2>
        <p>BubbleUPnP or any DLNA controller can access this renderer at:</p>
        <ul>");
    reveal_strlit("<strong>Volume:</strong> ");
    reveal_strlit("%</p>");
    assert("</p>
        <p><strong>Volume:</strong> "@.skip("</p>
        <p><strong>Volume:</strong> "@.len() - "<strong>Volume:</strong> "@.len()) =~= "<strong>Volume:</strong> "@);
    assert("%</p>
        <div style=\"margin-top: 15px;\">
            <a href=\"/api/play\" class=\"btn\">&#9654; Play</a>
            <a href=\"/api/pause\" class=\"btn\">&#10074;&#10074; Pause</a>
            <a href=\"/api/stop\" class=\"btn btn-stop\">&#9632; Stop</a>
        </div>
    </div>

    <div class=\"card\">
        <h2>Network Endpoints (Reachable by Phone)</h2>
        <p>BubbleUPnP or any DLNA controller can access this renderer at:</p>
        <ul>"@.subrange(0, "%</p>"@.len() as int) =~= "%</p>"@);
}

proof fn lemma_page_part_6()
    ensures
        "%</p>
        <div style=\"margin-top: 15px;\">
            <a href=\"/api/play\" class=\"btn\">&#9654; Play</a>
            <a href=\"/api/pause\" class=\"btn\">&#10074;&#10074; Pause</a>
            <a href=\"/api/stop\" class=\"btn btn-stop\">&#9632; Stop</a>
        </div>
    </div>

    <div class=\"card\">
        <h2>Network Endpoints (Reachable by Phone)</h2>
        <p>BubbleUPnP or any DLNA controller can access this renderer at:</p>
        <ul>"@.len() >= "<ul>"@.len(),
        "%</p>
        <div style=\"margin-top: 15px;\">
            <a href=\"/api/play\" class=\"btn\">&#9654; Play</a>
            <a href=\"/api/pause\" class=\"btn\">&#10074;&#10074; Pause</a>
            <a href=\"/api/stop\" class=\"btn btn-stop\">&#9632; Stop</a>
        </div>
    </div>

    <div class=\"card\">
        <h2>Network Endpoints (Reachable by Phone)</h2>
        <p>BubbleUPnP or any DLNA controller can access this renderer at:</p>
        <ul>"@.skip("%</p>
        <div style=\"margin-top: 15px;\">
            <a href=\"/api/play\" class=\"btn\">&#9654; Play</a>
            <a href=\"/api/pause\" class=\"btn\">&#10074;&#10074; Pause</a>
            <a href=\"/api/stop\" class=\"btn btn-stop\">&#9632; Stop</a>
        </div>
    </div>

    <div class=\"card\">
        <h2>Network Endpoints (Reachable by Phone)</h2>
        <p>BubbleUPnP or any DLNA controller can access this renderer at:</p>
        <ul>"@.len() - "<ul>"@.len()) == "<ul>"@,
        text::starts_with("</ul>
        <p style=\"font-size: 12px; color: #90a4ae;\">Current request host: <code>"@, "</ul>"@),
{
    reveal_strlit("%</p>
        <div style=\"margin-top: 15px;\">
            <a href=\"/api/play\" class=\"btn\">&#9654; Play</a>
            <a href=\"/api/pause\" class=\"btn\">&#10074;&#10074; Pause</a>
            <a href=\"/api/stop\" class=\"btn btn-stop\">&#9632; Stop</a>
        </div>
    </div>

    <div class=\"card\">
        <h2>Network Endpoints (Reachable by Phone)</h2>
        <p>BubbleUPnP or any DLNA controller can access this renderer at:</p>
        <ul>");
    reveal_strlit("</ul>
        <p style=\"font-size: 12px; color: #90a4ae;\">Current request host: <code>");
    reveal_strlit("<ul>");
    reveal_strlit("</ul>");
    assert("%</p>
        <div style=\"margin-top: 15px;\">
            <a href=\"/api/play\" class=\"btn\">&#9654; Play</a>
            <a href=\"/api/pause\" class=\"btn\">&#10074;&#10074; Pause</a>
            <a href=\"/api/stop\" class=\"btn btn-stop\">&#9632; Stop</a>
        </div>
    </div>

    <div class=\"card\">
        <h2>Network Endpoints (Reachable by Phone)</h2>
        <p>BubbleUPnP or any DLNA controller can access this renderer at:</p>
        <ul>"@.skip("%</p>
        <div style=\"margin-top: 15px;\">
            <a href=\"/api/play\" class=\"btn\">&#9654; Play</a>
            <a href=\"/api/pause\" class=\"btn\">&#10074;&#10074; Pause</a>
            <a href=\"/api/stop\" class=\"btn btn-stop\">&#9632; Stop</a>
        </div>
    </div>

    <div class=\"card\">
        <h2>Network Endpoints (Reachable by Phone)</h2>
        <p>BubbleUPnP or any DLNA controller can access this renderer at:</p>
        <ul>"@.len() - "<ul>"@.len()) =~= "<ul>"@);
    assert("</ul>
        <p style=\"font-size: 12px; color: #90a4ae;\">Current request host: <code>"@.subrange(0, "</ul>"@.len() as int) =~= "</ul>"@);
}

proof fn lemma_page_part_7()
    ensures
        "</ul>
        <p style=\"font-size: 12px; color: #90a4ae;\">Current request host: <code>"@.len() >= "Current request host: <code>"@.len(),
        "</ul>
        <p style=\"font-size: 12px; color: #90a4ae;\">Current request host: <code>"@.skip("</ul>
        <p style=\"font-size: 12px; color: #90a4ae;\">Current request host: <code>"@.len() - "Current request host: <code>"@.len()) == "Current request host: <code>"@,
        text::starts_with("</code></p>
    </div>

    <div class=\"card\">
        <h2>Tailscale & Hotspot Peers</h2>
        <ul>"@, "</code>"@),
{
    reveal_strlit("</ul>
        <p style=\"font-size: 12px; color: #90a4ae;\">Current request host: <code>");
    reveal_strlit("</code></p>
    </div>

    <div class=\"card\">
        <h2>Tailscale & Hotspot Peers</h2>
        <ul>");
    reveal_strlit("Current request host: <code>");
    reveal_strlit("</code>");
    assert("</ul>
        <p style=\"font-size: 12px; color: #90a4ae;\">Current request host: <code>"@.skip("</ul>
        <p style=\"font-size: 12px; color: #90a4ae;\">Current request host: <code>"@.len() - "Current request host: <code>"@.len()) =~= "Current request host: <code>"@);
    assert("</code></p>
    </div>

    <div class=\"card\">
        <h2>Tailscale & Hotspot Peers</h2>
        <ul>"@.subrange(0, "</code>"@.len() as int) =~= "</code>"@);
}

proof fn lemma_page_part_8()
    ensures
        "</code></p>
    </div>

    <div class=\"card\">
        <h2>Tailscale & Hotspot Peers</h2>
        <ul>"@.len() >= "<ul>"@.len(),
        "</code></p>
    </div>

    <div class=\"card\">
        <h2>Tailscale & Hotspot Peers</h2>
        <ul>"@.skip("</code></p>
    </div>

    <div class=\"card\">
        <h2>Tailscale & Hotspot Peers</h2>
        <ul>"@.len() - "<ul>"@.len()) == "<ul>"@,
        text::starts_with("</ul>
        <form action=\"/api/peer\" method=\"get\" style=\"margin-top: 10px;\">
            <input type=\"text\" name=\"ip\" placeholder=\"e.g. 100.80.1.2 or 192.168.43.1\" style=\"padding: 8px; border-radius: 4px; border: 1px solid #455a64; background: #263238; color: white; width: 220px;\">
            <button type=\"submit\" class=\"btn\" style=\"padding: 8px 14px;\">Add & Notify Peer</button>
        </form>
    </div>
</body>
</html>"@, "</ul>"@),
{
    reveal_strlit("</code></p>
    </div>

    <div class=\"card\">
        <h2>Tailscale & Hotspot Peers</h2>
        <ul>");
    reveal_strlit("</ul>
        <form action=\"/api/peer\" method=\"get\" style=\"margin-top: 10px;\">
            <input type=\"text\" name=\"ip\" placeholder=\"e.g. 100.80.1.2 or 192.168.43.1\" style=\"padding: 8px; border-radius: 4px; border: 1px solid #455a64; background: #263238; color: white; width: 220px;\">
            <button type=\"submit\" class=\"btn\" style=\"padding: 8px 14px;\">Add & Notify Peer</button>
        </form>
    </div>
</body>
</html>");
    reveal_strlit("<ul>");
    reveal_strlit("</ul>");
    assert("</code></p>
    </div>

    <div class=\"card\">
        <h2>Tailscale & Hotspot Peers</h2>
        <ul>"@.skip("</code></p>
    </div>

    <div class=\"card\">
        <h2>Tailscale & Hotspot Peers</h2>
        <ul>"@.len() - "<ul>"@.len()) =~= "<ul>"@);
    assert("</ul>
        <form action=\"/api/peer\" method=\"get\" style=\"margin-top: 10px;\">
            <input type=\"text\" name=\"ip\" placeholder=\"e.g. 100.80.1.2 or 192.168.43.1\" style=\"padding: 8px; border-radius: 4px; border: 1px solid #455a64; background: #263238; color: white; width: 220px;\">
            <button type=\"submit\" class=\"btn\" style=\"padding: 8px 14px;\">Add & Notify Peer</button>
        </form>
    </div>
</body>
</html>"@.subrange(0, "</ul>"@.len() as int) =~= "</ul>"@);
}

proof fn lemma_page_woven(
    friendly: Seq<char>,
    av: AvModel,
    endpoints: Seq<EndpointModel>,
    peers: Seq<Ipv4Addr>,
    http_port: u16,
    host: Seq<char>,
    a: Seq<Seq<char>>,
    x: Seq<Seq<char>>,
    title: Seq<char>,
    times: Seq<char>,
)
    requires
        title == if av.title.len() == 0 {
            "No media playing"@
        } else {
            av.title
        },
        times == state::clock_text(av.position / 1_000_000_000) + "/"@ + state::clock_text(
            av.duration / 1_000_000_000,
        ),
        a == seq![
            "<!DOCTYPE html>
<html>
<head>
    <meta charset=\"utf-8\">
    <meta name=\"viewport\" content=\"width=device-width, initial-scale=1\">
    <title>"@,
            " - DLNA Renderer</title>
    <style>
        body { font-family: -apple-system, BlinkMacSystemFont, 'Segoe UI', Roboto, sans-serif; margin: 0; padding: 24px; background: #121212; color: #e0e0e0; }
        .card { background: #1e1e1e; border-radius: 12px; padding: 20px; margin-bottom: 20px; box-shadow: 0 4px 12px rgba(0,0,0,0.4); max-width: 650px; }
        h1 { margin-top: 0; color: #4fc3f7; font-size: 24px; }
        h2 { color: #b0bec5; font-size: 18px; border-bottom: 1px solid #333; padding-bottom: 6px; }
        .btn { display: inline-block; background: #0288d1; color: white; border: none; padding: 10px 18px; border-radius: 6px; margin: 4px; font-weight: bold; text-decoration: none; cursor: pointer; }
        .btn:hover { background: #039be5; }
        .btn-stop { background: #d32f2f; }
        .btn-stop:hover { background: #e53935; }
        ul { padding-left: 20px; line-height: 1.6; }
        code { background: #263238; padding: 2px 6px; border-radius: 4px; color: #80d8ff; font-size: 13px; }
        .status-badge { display: inline-block; padding: 4px 10px; border-radius: 12px; font-size: 13px; font-weight: bold; background: #37474f; color: #eceff1; }
    </style>
</head>
<body>
    <div class=\"card\">
        <h1>"@,
            "</h1>
        <p><span class=\"status-badge\">"@,
            "</span> <span style=\"margin-left:10px;\">"@,
            "</span></p>
        <p><strong>Track:</strong> "@,
            "</p>
        <p><strong>Volume:</strong> "@,
            "%</p>
        <div style=\"margin-top: 15px;\">
            <a href=\"/api/play\" class=\"btn\">&#9654; Play</a>
            <a href=\"/api/pause\" class=\"btn\">&#10074;&#10074; Pause</a>
            <a href=\"/api/stop\" class=\"btn btn-stop\">&#9632; Stop</a>
        </div>
    </div>

    <div class=\"card\">
        <h2>Network Endpoints (Reachable by Phone)</h2>
        <p>BubbleUPnP or any DLNA controller can access this renderer at:</p>
        <ul>"@,
            "</ul>
        <p style=\"font-size: 12px; color: #90a4ae;\">Current request host: <code>"@,
            "</code></p>
    </div>

    <div class=\"card\">
        <h2>Tailscale & Hotspot Peers</h2>
        <ul>"@,
            "</ul>
        <form action=\"/api/peer\" method=\"get\" style=\"margin-top: 10px;\">
            <input type=\"text\" name=\"ip\" placeholder=\"e.g. 100.80.1.2 or 192.168.43.1\" style=\"padding: 8px; border-radius: 4px; border: 1px solid #455a64; background: #263238; color: white; width: 220px;\">
            <button type=\"submit\" class=\"btn\" style=\"padding: 8px 14px;\">Add & Notify Peer</button>
        </form>
    </div>
</body>
</html>"@,
        ],
        x == seq![
            friendly,
            friendly,
            av.transport_state.name(),
            times,
            title,
            number::decimal_of(av.volume as nat),
            endpoint_items(endpoints, http_port),
            host,
            peer_items(peers),
        ],
    ensures
        page(friendly, av, endpoints, peers, http_port, host) == woven(a, x, 9) + a[9],
{
    reveal_with_fuel(woven, 10);
    let none = Seq::<char>::empty();
    assert(none + a[0] =~= a[0]);
}

/// Every endpoint and every peer has its item in the lists of the page.
pub proof fn lemma_page_lists(
    endpoints: Seq<EndpointModel>,
    http_port: u16,
    peers: Seq<Ipv4Addr>,
    i: int,
)
    ensures
        0 <= i < endpoints.len() ==> text::contains(
            endpoint_items(endpoints, http_port),
            "<li><strong>"@ + endpoints[i].name + "</strong>: <code>http://"@
                + endpoints[i].ip.dotted() + ":"@ + number::decimal_of(http_port as nat)
                + "/description.xml</code> "@ + endpoint_tag(endpoints[i]) + "</li>"@,
        ),
        0 <= i < peers.len() ==> text::contains(
            peer_items(peers),
            "<li><code>"@ + peers[i].dotted() + "</code> (notified via unicast)</li>"@,
        ),
    decreases endpoints.len() + peers.len(),
{
    let none = Seq::<char>::empty();
    if 0 <= i < endpoints.len() {
        let before = endpoint_items(endpoints.drop_last(), http_port);
        let last = endpoint_item(endpoints.last(), http_port);
        assert(endpoint_items(endpoints, http_port) =~= before + last + none);
        assert(endpoint_items(endpoints, http_port) =~= none + before + last);
        if i == endpoints.len() - 1 {
            text::lemma_contains_part(before, last, none);
        } else {
            lemma_page_lists(endpoints.drop_last(), http_port, Seq::empty(), i);
            text::lemma_contains_within(
                none,
                before,
                last,
                endpoint_item(endpoints[i], http_port),
            );
        }
    }
    if 0 <= i < peers.len() {
        let before = listed_peers(peers.drop_last());
        let last = "<li><code>"@ + peers.last().dotted() + "</code> (notified via unicast)</li>"@;
        assert(listed_peers(peers) =~= before + last + none);
        assert(listed_peers(peers) =~= none + before + last);
        if i == peers.len() - 1 {
            text::lemma_contains_part(before, last, none);
        } else {
            lemma_page_lists(Seq::empty(), http_port, peers.drop_last(), i);
            text::lemma_contains_within(
                none,
                before,
                last,
                "<li><code>"@ + peers[i].dotted() + "</code> (notified via unicast)</li>"@,
            );
        }
    }
}

/// The mark of an endpoint: Tailscale's before the primary one's, and none for the others.
pub proof fn lemma_tags_are(e: EndpointModel)
    ensures
        e.is_tailscale ==> text::contains(endpoint_tag(e), "[Tailscale]"@),
        !e.is_tailscale && e.is_primary ==> text::contains(endpoint_tag(e), "[Primary/Hotspot]"@),
        !e.is_tailscale && !e.is_primary ==> endpoint_tag(e).len() == 0,
{
    reveal_strlit("<span style=\"color:#00c853;\">[Tailscale]</span>");
    reveal_strlit("<span style=\"color:#2979ff;\">[Primary/Hotspot]</span>");
    reveal_strlit("[Tailscale]");
    reveal_strlit("[Primary/Hotspot]");
    reveal_strlit("");
    let t = endpoint_tag(e);
    if e.is_tailscale {
        assert(t.subrange(29, 40) =~= "[Tailscale]"@);
        assert(text::occurs_at(t, "[Tailscale]"@, 29));
    } else if e.is_primary {
        assert(t.subrange(29, 46) =~= "[Primary/Hotspot]"@);
        assert(text::occurs_at(t, "[Primary/Hotspot]"@, 29));
    }
}

} // verus!
