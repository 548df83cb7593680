//! Classification of listening ports and their processes.
use vstd::prelude::*;
use crate::types::{PortCategory, PortEntry, PortScanResult};
use crate::text::{lowercase, str_to_lowercase, chars_of, chars_equal, decimal, digit_char, all_ascii, ascii_lower};

verus! {

/// A listening socket as the operating system reports it.
pub struct ListenerInfo {
    /// The protocol's display name ("TCP", "UDP").
    pub protocol: String,
    /// Whether the protocol is TCP.
    pub is_tcp: bool,
    /// The local socket address's display form ("127.0.0.1:3000").
    pub local_addr: String,
    pub port: u16,
    pub pid: u32,
    /// The process name; empty when the system did not report one.
    pub process_name: String,
}

/// The name without a trailing ".exe".
pub open spec fn strip_exe(s: Seq<char>) -> Seq<char> {
    if s.len() >= 4 && s.subrange(s.len() - 4, s.len() as int) == seq!['.', 'e', 'x', 'e'] {
        s.subrange(0, s.len() - 4)
    } else {
        s
    }
}

/// The category of a lower-case process name without ".exe".
pub open spec fn category_of_name(n: Seq<char>) -> PortCategory {
    if n == "nginx"@ || n == "apache"@ || n == "httpd"@ || n == "caddy"@ || n == "lighttpd"@
        || n == "tomcat"@ {
        PortCategory::WebServer
    } else if n == "mysql"@ || n == "postgres"@ || n == "redis"@ || n == "mongo"@ || n == "mariadb"@
        || n == "sqlite3"@ || n == "mongod"@ || n == "mysqld"@ || n == "redis-server"@ {
        PortCategory::Database
    } else if n == "node"@ || n == "python"@ || n == "java"@ || n == "dotnet"@ || n == "ruby"@
        || n == "go"@ || n == "cargo"@ || n == "php"@ || n == "puma"@ || n == "uvicorn"@
        || n == "gunicorn"@ {
        PortCategory::Development
    } else if n == "svchost"@ || n == "system"@ || n == "kernel_task"@ || n == "launchd"@
        || n == "systemd"@ || n == "init"@ || n == "kthreadd"@ || n == "dwm"@ {
        PortCategory::System
    } else {
        PortCategory::Other
    }
}

/// The category of a process name: lower-cased, without ".exe".
pub open spec fn process_category(name: Seq<char>) -> PortCategory {
    category_of_name(strip_exe(lowercase(name)))
}

fn is_name(n: &[char], lit: &str) -> (r: bool)
    ensures
        r == (n@ == lit@),
{
    let l = chars_of(lit);
    chars_equal(n, l.as_slice())
}

/// Classifies a process by its name.
pub fn classify_process(process_name: &str) -> (r: PortCategory)
    ensures
        r == process_category(process_name@),
        all_ascii(process_name@) ==> r == category_of_name(strip_exe(ascii_lower(process_name@))),
{
    let lower = str_to_lowercase(process_name);
    classify_lowered(lower.as_str())
}

/// Classifies a process by its lower-cased name (see `category_of_name`),
/// after dropping one trailing ".exe".
pub fn classify_lowered(lower: &str) -> (r: PortCategory)
    ensures
        r == category_of_name(strip_exe(lower@)),
{
    let cs = chars_of(lower);
    let len = cs.len();
    let mut name: Vec<char> = Vec::new();
    let has_exe = len >= 4 && cs[len - 4] == '.' && cs[len - 3] == 'e' && cs[len - 2] == 'x'
        && cs[len - 1] == 'e';
    let keep: usize = if has_exe { len - 4 } else { len };
    let mut i: usize = 0;
    while i < keep
        invariant
            keep <= cs@.len(),
            i <= keep,
            name@ == cs@.subrange(0, i as int),
        decreases keep - i,
    {
        name.push(cs[i]);
        i = i + 1;
    }
    proof {
        let s = lower@;
        assert(cs@ == s);
        if has_exe {
            assert(s.subrange(s.len() - 4, s.len() as int) =~= seq!['.', 'e', 'x', 'e']);
        } else if s.len() >= 4 {
            assert(s.subrange(s.len() - 4, s.len() as int)[0] == s[s.len() - 4]);
            assert(s.subrange(s.len() - 4, s.len() as int)[1] == s[s.len() - 3]);
            assert(s.subrange(s.len() - 4, s.len() as int)[2] == s[s.len() - 2]);
            assert(s.subrange(s.len() - 4, s.len() as int)[3] == s[s.len() - 1]);
        }
        if !has_exe {
            assert(s.subrange(0, s.len() as int) =~= s);
        }
        assert(name@ == strip_exe(s));
    }
    let n = name.as_slice();
    if is_name(n, "nginx") || is_name(n, "apache") || is_name(n, "httpd") || is_name(n, "caddy")
        || is_name(n, "lighttpd") || is_name(n, "tomcat") {
        PortCategory::WebServer
    } else if is_name(n, "mysql") || is_name(n, "postgres") || is_name(n, "redis") || is_name(
        n,
        "mongo",
    ) || is_name(n, "mariadb") || is_name(n, "sqlite3") || is_name(n, "mongod") || is_name(
        n,
        "mysqld",
    ) || is_name(n, "redis-server") {
        PortCategory::Database
    } else if is_name(n, "node") || is_name(n, "python") || is_name(n, "java") || is_name(
        n,
        "dotnet",
    ) || is_name(n, "ruby") || is_name(n, "go") || is_name(n, "cargo") || is_name(n, "php")
        || is_name(n, "puma") || is_name(n, "uvicorn") || is_name(n, "gunicorn") {
        PortCategory::Development
    } else if is_name(n, "svchost") || is_name(n, "system") || is_name(n, "kernel_task") || is_name(
        n,
        "launchd",
    ) || is_name(n, "systemd") || is_name(n, "init") || is_name(n, "kthreadd") || is_name(
        n,
        "dwm",
    ) {
        PortCategory::System
    } else {
        PortCategory::Other
    }
}

/// `true` for '0'..'9'.
pub open spec fn is_digit(c: char) -> bool {
    '0' <= c && c <= '9'
}

/// The number that a string of decimal digits denotes.
pub open spec fn digits_value(d: Seq<char>) -> nat
    decreases d.len(),
{
    if d.len() == 0 {
        0
    } else {
        digits_value(d.drop_last()) * 10 + ((d.last() as u32) - 48) as nat
    }
}

/// The text without one leading '+'.
pub open spec fn sign_stripped(s: Seq<char>) -> Seq<char> {
    if s.len() > 0 && s[0] == '+' {
        s.drop_first()
    } else {
        s
    }
}

/// What `str::parse::<u16>` accepts: an optional '+', then one or more
/// decimal digits denoting a value that fits in 16 bits.
pub open spec fn parse_u16_text(s: Seq<char>) -> Option<u16> {
    let d = sign_stripped(s);
    if d.len() > 0 && (forall|i: int| 0 <= i < d.len() ==> is_digit(#[trigger] d[i]))
        && digits_value(d) <= 65535 {
        Some(digits_value(d) as u16)
    } else {
        None
    }
}

/// Index of the last occurrence of `c` in `s`, or -1.
pub open spec fn last_index_of(s: Seq<char>, c: char) -> int
    decreases s.len(),
{
    if s.len() == 0 {
        -1
    } else if s.last() == c {
        s.len() - 1
    } else {
        last_index_of(s.drop_last(), c)
    }
}

/// The port written after the last ':' of an address, or 0.
pub open spec fn port_of_addr(s: Seq<char>) -> u16 {
    let i = last_index_of(s, ':');
    if i < 0 {
        0
    } else {
        match parse_u16_text(s.skip(i + 1)) {
            Some(p) => p,
            None => 0,
        }
    }
}

proof fn lemma_digits_value_grows(d: Seq<char>, k: int)
    requires
        0 <= k <= d.len(),
        forall|i: int| 0 <= i < d.len() ==> is_digit(#[trigger] d[i]),
    ensures
        digits_value(d.take(k)) <= digits_value(d),
    decreases d.len() - k,
{
    if k < d.len() {
        lemma_digits_value_grows(d, k + 1);
        assert(d.take(k + 1).drop_last() =~= d.take(k));
    } else {
        assert(d.take(k) =~= d);
    }
}

proof fn lemma_last_index_bounds(s: Seq<char>, c: char)
    ensures
        -1 <= last_index_of(s, c) < s.len(),
        last_index_of(s, c) >= 0 ==> s[last_index_of(s, c)] == c,
        forall|j: int| last_index_of(s, c) < j < s.len() ==> s[j] != c,
    decreases s.len(),
{
    if s.len() > 0 && s.last() != c {
        lemma_last_index_bounds(s.drop_last(), c);
        assert forall|j: int| last_index_of(s, c) < j < s.len() implies s[j] != c by {
            if j < s.len() - 1 {
                assert(s[j] == s.drop_last()[j]);
            }
        }
    }
}

/// Parses a 16-bit unsigned decimal number (see `parse_u16_text`).
pub fn parse_u16(s: &[char]) -> (r: Option<u16>)
    ensures
        r == parse_u16_text(s@),
{
    let n: usize = s.len();
    let start: usize = if n > 0 && s[0] == '+' { 1 } else { 0 };
    let ghost d = sign_stripped(s@);
    assert(d =~= s@.skip(start as int));
    if start >= n {
        return None;
    }
    let mut acc: u32 = 0;
    let mut i: usize = start;
    while i < n
        invariant
            n == s@.len(),
            start <= i <= n,
            d == s@.skip(start as int),
            d == sign_stripped(s@),
            forall|j: int| 0 <= j < i - start ==> is_digit(#[trigger] d[j]),
            acc == digits_value(d.take(i - start)),
            acc <= 65535,
        decreases n - i,
    {
        let c = s[i];
        assert(d[i - start] == s@[i as int]);
        if !('0' <= c && c <= '9') {
            assert(!is_digit(d[i - start]));
            return None;
        }
        let v: u32 = (c as u32) - 48;
        assert(d.take(i - start + 1).drop_last() =~= d.take(i - start));
        let next: u32 = acc * 10 + v;
        assert(d.take(i - start + 1).last() == c);
        assert(next == digits_value(d.take(i - start + 1)));
        if next > 65535 {
            proof {
                let k = i - start + 1;
                if forall|j: int| 0 <= j < d.len() ==> is_digit(#[trigger] d[j]) {
                    lemma_digits_value_grows(d, k);
                }
            }
            return None;
        }
        acc = next;
        i = i + 1;
    }
    assert(d.take(n - start) =~= d);
    Some(acc as u16)
}

/// The port number after the last ':' of a socket address, or 0 when there
/// is none or it is not a valid 16-bit number.
pub fn extract_port(local_addr: &str) -> (r: u16)
    ensures
        r == port_of_addr(local_addr@),
{
    let cs = chars_of(local_addr);
    let mut i: usize = cs.len();
    proof {
        lemma_last_index_bounds(cs@, ':');
    }
    while i > 0
        invariant
            cs@ == local_addr@,
            i <= cs@.len(),
            forall|j: int| i <= j < cs@.len() ==> cs@[j] != ':',
            last_index_of(cs@, ':') < i,
        decreases i,
    {
        proof {
            lemma_last_index_bounds(cs@, ':');
        }
        if cs[i - 1] == ':' {
            let mut rest: Vec<char> = Vec::new();
            let mut k: usize = i;
            while k < cs.len()
                invariant
                    i <= k <= cs@.len(),
                    rest@ == cs@.subrange(i as int, k as int),
                decreases cs@.len() - k,
            {
                rest.push(cs[k]);
                k = k + 1;
            }
            assert(rest@ =~= cs@.skip(i as int));
            proof {
                lemma_last_index_bounds(cs@, ':');
                let li = last_index_of(cs@, ':');
                assert(li == i - 1) by {
                    if li < i - 1 {
                        assert(cs@[i - 1] != ':');
                    }
                }
            }
            return match parse_u16(rest.as_slice()) {
                Some(p) => p,
                None => 0,
            };
        }
        i = i - 1;
    }
    proof {
        lemma_last_index_bounds(cs@, ':');
    }
    0
}

/// The entry that a TCP listener becomes.
pub open spec fn entry_matches(e: PortEntry, l: ListenerInfo) -> bool {
    &&& e.protocol@ == l.protocol@
    &&& e.local_addr@ == l.local_addr@
    &&& e.port == l.port
    &&& e.pid == Some(l.pid)
    &&& e.process_name == (if l.process_name@.len() == 0 { None::<String> } else { Some(l.process_name) })
    &&& e.category == process_category(l.process_name@)
}

/// The TCP listeners among `ls`, in order.
pub open spec fn tcp_only(ls: Seq<ListenerInfo>) -> Seq<ListenerInfo> {
    ls.filter(|l: ListenerInfo| l.is_tcp)
}

/// Builds the scan result from the listeners the system reported: one entry
/// per TCP listener, in the order given.
pub fn build_port_scan(listeners: &Vec<ListenerInfo>, scanned_at: String) -> (r: PortScanResult)
    ensures
        r.ports@.len() == tcp_only(listeners@).len(),
        forall|i: int| 0 <= i < r.ports@.len() ==> entry_matches(#[trigger] r.ports@[i], tcp_only(listeners@)[i]),
        r.scanned_at == scanned_at,
        r.total_count == r.ports@.len() as i64,
{
    let mut ports: Vec<PortEntry> = Vec::new();
    let mut i: usize = 0;
    assert(listeners@.take(0).filter(|l: ListenerInfo| l.is_tcp) =~= seq![]);
    while i < listeners.len()
        invariant
            i <= listeners@.len(),
            ports@.len() == tcp_only(listeners@.take(i as int)).len(),
            ports@.len() <= i,
            forall|j: int| 0 <= j < ports@.len() ==> entry_matches(#[trigger] ports@[j], tcp_only(listeners@.take(i as int))[j]),
        decreases listeners@.len() - i,
    {
        let l = &listeners[i];
        proof {
            assert(listeners@.take(i + 1).drop_last() =~= listeners@.take(i as int));
            reveal_with_fuel(Seq::filter, 1);
        }
        if l.is_tcp {
            let process_name = if l.process_name.as_str().is_empty() {
                None
            } else {
                Some(l.process_name.clone())
            };
            let category = classify_process(l.process_name.as_str());
            ports.push(PortEntry {
                protocol: l.protocol.clone(),
                local_addr: l.local_addr.clone(),
                port: l.port,
                pid: Some(l.pid),
                process_name,
                category,
            });
        }
        i = i + 1;
    }
    assert(listeners@.take(listeners@.len() as int) =~= listeners@);
    let total_count: i64 = #[verifier::truncate] (ports.len() as i64);
    PortScanResult { ports, scanned_at, total_count }
}

proof fn lemma_decimal_digits(n: nat)
    ensures
        decimal(n).len() > 0,
        forall|i: int| 0 <= i < decimal(n).len() ==> is_digit(#[trigger] decimal(n)[i]),
        digits_value(decimal(n)) == n,
    decreases n,
{
    if n >= 10 {
        lemma_decimal_digits(n / 10);
        let d = decimal(n);
        assert(d.drop_last() =~= decimal(n / 10));
        assert((digit_char(n % 10) as u32) == 48 + n % 10);
        assert(d.last() == digit_char(n % 10));
        assert(digits_value(d) == digits_value(decimal(n / 10)) * 10 + n % 10);
        assert((n / 10) * 10 + n % 10 == n);
        assert forall|i: int| 0 <= i < d.len() implies is_digit(#[trigger] d[i]) by {
            if i < d.len() - 1 {
                assert(d[i] == decimal(n / 10)[i]);
            }
        }
    } else {
        assert(seq![digit_char(n)].drop_last() =~= Seq::<char>::empty());
        assert((digit_char(n) as u32) == 48 + n);
        assert(digits_value(seq![digit_char(n)]) == digits_value(Seq::<char>::empty()) * 10 + n);
    }
}

/// A socket address written as a host, ':' and a port in decimal gives that
/// port back, whatever the host holds (colons of an IPv6 host included).
pub proof fn law_port_round_trip(host: Seq<char>, port: u16)
    ensures
        port_of_addr(host + seq![':'] + decimal(port as nat)) == port,
{
    let d = decimal(port as nat);
    let s = host + seq![':'] + d;
    lemma_decimal_digits(port as nat);
    lemma_last_index_bounds(s, ':');
    let li = last_index_of(s, ':');
    assert(s[host.len() as int] == ':');
    assert forall|j: int| host.len() < j < s.len() implies s[j] != ':' by {
        assert(s[j] == d[j - host.len() - 1]);
        assert(is_digit(d[j - host.len() - 1]));
    }
    assert(li == host.len());
    assert(s.skip(li + 1) =~= d);
    assert(is_digit(d[0]));
    assert(sign_stripped(d) == d);
}

/// The category of every process name that the classifier knows.
pub open spec fn category_table() -> Seq<(Seq<char>, PortCategory)> {
    seq![
        ("nginx"@, PortCategory::WebServer),
        ("apache"@, PortCategory::WebServer),
        ("httpd"@, PortCategory::WebServer),
        ("caddy"@, PortCategory::WebServer),
        ("lighttpd"@, PortCategory::WebServer),
        ("tomcat"@, PortCategory::WebServer),
        ("mysql"@, PortCategory::Database),
        ("postgres"@, PortCategory::Database),
        ("redis"@, PortCategory::Database),
        ("mongo"@, PortCategory::Database),
        ("mariadb"@, PortCategory::Database),
        ("sqlite3"@, PortCategory::Database),
        ("mongod"@, PortCategory::Database),
        ("mysqld"@, PortCategory::Database),
        ("redis-server"@, PortCategory::Database),
        ("node"@, PortCategory::Development),
        ("python"@, PortCategory::Development),
        ("java"@, PortCategory::Development),
        ("dotnet"@, PortCategory::Development),
        ("ruby"@, PortCategory::Development),
        ("go"@, PortCategory::Development),
        ("cargo"@, PortCategory::Development),
        ("php"@, PortCategory::Development),
        ("puma"@, PortCategory::Development),
        ("uvicorn"@, PortCategory::Development),
        ("gunicorn"@, PortCategory::Development),
        ("svchost"@, PortCategory::System),
        ("system"@, PortCategory::System),
        ("kernel_task"@, PortCategory::System),
        ("launchd"@, PortCategory::System),
        ("systemd"@, PortCategory::System),
        ("init"@, PortCategory::System),
        ("kthreadd"@, PortCategory::System),
        ("dwm"@, PortCategory::System),
    ]
}

proof fn lemma_category_row_0()
    ensures
        category_of_name("nginx"@) == PortCategory::WebServer,
        strip_exe("nginx"@) == "nginx"@,
        strip_exe("nginx"@ + ".exe"@) == "nginx"@,
{
    reveal_strlit("nginx");
    reveal_strlit(".exe");
    assert("nginx"@[1] != seq!['.', 'e', 'x', 'e'][0]);
    assert("nginx"@.subrange(1, 5)[0] == "nginx"@[1]);
    let w = "nginx"@ + ".exe"@;
    assert(w.subrange(w.len() - 4, w.len() as int) =~= seq!['.', 'e', 'x', 'e']);
    assert(w.subrange(0, w.len() - 4) =~= "nginx"@);
}

proof fn lemma_category_row_1()
    ensures
        category_of_name("apache"@) == PortCategory::WebServer,
        strip_exe("apache"@) == "apache"@,
        strip_exe("apache"@ + ".exe"@) == "apache"@,
{
    reveal_strlit("apache");
    reveal_strlit(".exe");
    reveal_strlit("nginx");
    assert("apache"@.len() != "nginx"@.len());
    assert("apache"@[2] != seq!['.', 'e', 'x', 'e'][0]);
    assert("apache"@.subrange(2, 6)[0] == "apache"@[2]);
    let w = "apache"@ + ".exe"@;
    assert(w.subrange(w.len() - 4, w.len() as int) =~= seq!['.', 'e', 'x', 'e']);
    assert(w.subrange(0, w.len() - 4) =~= "apache"@);
}

proof fn lemma_category_row_2()
    ensures
        category_of_name("httpd"@) == PortCategory::WebServer,
        strip_exe("httpd"@) == "httpd"@,
        strip_exe("httpd"@ + ".exe"@) == "httpd"@,
{
    reveal_strlit("httpd");
    reveal_strlit(".exe");
    reveal_strlit("nginx");
    assert("httpd"@[0] != "nginx"@[0]);
    reveal_strlit("apache");
    assert("httpd"@.len() != "apache"@.len());
    assert("httpd"@[1] != seq!['.', 'e', 'x', 'e'][0]);
    assert("httpd"@.subrange(1, 5)[0] == "httpd"@[1]);
    let w = "httpd"@ + ".exe"@;
    assert(w.subrange(w.len() - 4, w.len() as int) =~= seq!['.', 'e', 'x', 'e']);
    assert(w.subrange(0, w.len() - 4) =~= "httpd"@);
}

proof fn lemma_category_row_3()
    ensures
        category_of_name("caddy"@) == PortCategory::WebServer,
        strip_exe("caddy"@) == "caddy"@,
        strip_exe("caddy"@ + ".exe"@) == "caddy"@,
{
    reveal_strlit("caddy");
    reveal_strlit(".exe");
    reveal_strlit("nginx");
    assert("caddy"@[0] != "nginx"@[0]);
    reveal_strlit("apache");
    assert("caddy"@.len() != "apache"@.len());
    reveal_strlit("httpd");
    assert("caddy"@[0] != "httpd"@[0]);
    assert("caddy"@[1] != seq!['.', 'e', 'x', 'e'][0]);
    assert("caddy"@.subrange(1, 5)[0] == "caddy"@[1]);
    let w = "caddy"@ + ".exe"@;
    assert(w.subrange(w.len() - 4, w.len() as int) =~= seq!['.', 'e', 'x', 'e']);
    assert(w.subrange(0, w.len() - 4) =~= "caddy"@);
}

proof fn lemma_category_row_4()
    ensures
        category_of_name("lighttpd"@) == PortCategory::WebServer,
        strip_exe("lighttpd"@) == "lighttpd"@,
        strip_exe("lighttpd"@ + ".exe"@) == "lighttpd"@,
{
    reveal_strlit("lighttpd");
    reveal_strlit(".exe");
    reveal_strlit("nginx");
    assert("lighttpd"@.len() != "nginx"@.len());
    reveal_strlit("apache");
    assert("lighttpd"@.len() != "apache"@.len());
    reveal_strlit("httpd");
    assert("lighttpd"@.len() != "httpd"@.len());
    reveal_strlit("caddy");
    assert("lighttpd"@.len() != "caddy"@.len());
    assert("lighttpd"@[4] != seq!['.', 'e', 'x', 'e'][0]);
    assert("lighttpd"@.subrange(4, 8)[0] == "lighttpd"@[4]);
    let w = "lighttpd"@ + ".exe"@;
    assert(w.subrange(w.len() - 4, w.len() as int) =~= seq!['.', 'e', 'x', 'e']);
    assert(w.subrange(0, w.len() - 4) =~= "lighttpd"@);
}

proof fn lemma_category_row_5()
    ensures
        category_of_name("tomcat"@) == PortCategory::WebServer,
        strip_exe("tomcat"@) == "tomcat"@,
        strip_exe("tomcat"@ + ".exe"@) == "tomcat"@,
{
    reveal_strlit("tomcat");
    reveal_strlit(".exe");
    reveal_strlit("nginx");
    assert("tomcat"@.len() != "nginx"@.len());
    reveal_strlit("apache");
    assert("tomcat"@[0] != "apache"@[0]);
    reveal_strlit("httpd");
    assert("tomcat"@.len() != "httpd"@.len());
    reveal_strlit("caddy");
    assert("tomcat"@.len() != "caddy"@.len());
    reveal_strlit("lighttpd");
    assert("tomcat"@.len() != "lighttpd"@.len());
    assert("tomcat"@[2] != seq!['.', 'e', 'x', 'e'][0]);
    assert("tomcat"@.subrange(2, 6)[0] == "tomcat"@[2]);
    let w = "tomcat"@ + ".exe"@;
    assert(w.subrange(w.len() - 4, w.len() as int) =~= seq!['.', 'e', 'x', 'e']);
    assert(w.subrange(0, w.len() - 4) =~= "tomcat"@);
}

proof fn lemma_category_row_6()
    ensures
        category_of_name("mysql"@) == PortCategory::Database,
        strip_exe("mysql"@) == "mysql"@,
        strip_exe("mysql"@ + ".exe"@) == "mysql"@,
{
    reveal_strlit("mysql");
    reveal_strlit(".exe");
    reveal_strlit("nginx");
    assert("mysql"@[0] != "nginx"@[0]);
    reveal_strlit("apache");
    assert("mysql"@.len() != "apache"@.len());
    reveal_strlit("httpd");
    assert("mysql"@[0] != "httpd"@[0]);
    reveal_strlit("caddy");
    assert("mysql"@[0] != "caddy"@[0]);
    reveal_strlit("lighttpd");
    assert("mysql"@.len() != "lighttpd"@.len());
    reveal_strlit("tomcat");
    assert("mysql"@.len() != "tomcat"@.len());
    assert("mysql"@[1] != seq!['.', 'e', 'x', 'e'][0]);
    assert("mysql"@.subrange(1, 5)[0] == "mysql"@[1]);
    let w = "mysql"@ + ".exe"@;
    assert(w.subrange(w.len() - 4, w.len() as int) =~= seq!['.', 'e', 'x', 'e']);
    assert(w.subrange(0, w.len() - 4) =~= "mysql"@);
}

proof fn lemma_category_row_7()
    ensures
        category_of_name("postgres"@) == PortCategory::Database,
        strip_exe("postgres"@) == "postgres"@,
        strip_exe("postgres"@ + ".exe"@) == "postgres"@,
{
    reveal_strlit("postgres");
    reveal_strlit(".exe");
    reveal_strlit("nginx");
    assert("postgres"@.len() != "nginx"@.len());
    reveal_strlit("apache");
    assert("postgres"@.len() != "apache"@.len());
    reveal_strlit("httpd");
    assert("postgres"@.len() != "httpd"@.len());
    reveal_strlit("caddy");
    assert("postgres"@.len() != "caddy"@.len());
    reveal_strlit("lighttpd");
    assert("postgres"@[0] != "lighttpd"@[0]);
    reveal_strlit("tomcat");
    assert("postgres"@.len() != "tomcat"@.len());
    reveal_strlit("mysql");
    assert("postgres"@.len() != "mysql"@.len());
    assert("postgres"@[4] != seq!['.', 'e', 'x', 'e'][0]);
    assert("postgres"@.subrange(4, 8)[0] == "postgres"@[4]);
    let w = "postgres"@ + ".exe"@;
    assert(w.subrange(w.len() - 4, w.len() as int) =~= seq!['.', 'e', 'x', 'e']);
    assert(w.subrange(0, w.len() - 4) =~= "postgres"@);
}

proof fn lemma_category_row_8()
    ensures
        category_of_name("redis"@) == PortCategory::Database,
        strip_exe("redis"@) == "redis"@,
        strip_exe("redis"@ + ".exe"@) == "redis"@,
{
    reveal_strlit("redis");
    reveal_strlit(".exe");
    reveal_strlit("nginx");
    assert("redis"@[0] != "nginx"@[0]);
    reveal_strlit("apache");
    assert("redis"@.len() != "apache"@.len());
    reveal_strlit("httpd");
    assert("redis"@[0] != "httpd"@[0]);
    reveal_strlit("caddy");
    assert("redis"@[0] != "caddy"@[0]);
    reveal_strlit("lighttpd");
    assert("redis"@.len() != "lighttpd"@.len());
    reveal_strlit("tomcat");
    assert("redis"@.len() != "tomcat"@.len());
    reveal_strlit("mysql");
    assert("redis"@[0] != "mysql"@[0]);
    reveal_strlit("postgres");
    assert("redis"@.len() != "postgres"@.len());
    assert("redis"@[1] != seq!['.', 'e', 'x', 'e'][0]);
    assert("redis"@.subrange(1, 5)[0] == "redis"@[1]);
    let w = "redis"@ + ".exe"@;
    assert(w.subrange(w.len() - 4, w.len() as int) =~= seq!['.', 'e', 'x', 'e']);
    assert(w.subrange(0, w.len() - 4) =~= "redis"@);
}

proof fn lemma_category_row_9()
    ensures
        category_of_name("mongo"@) == PortCategory::Database,
        strip_exe("mongo"@) == "mongo"@,
        strip_exe("mongo"@ + ".exe"@) == "mongo"@,
{
    reveal_strlit("mongo");
    reveal_strlit(".exe");
    reveal_strlit("nginx");
    assert("mongo"@[0] != "nginx"@[0]);
    reveal_strlit("apache");
    assert("mongo"@.len() != "apache"@.len());
    reveal_strlit("httpd");
    assert("mongo"@[0] != "httpd"@[0]);
    reveal_strlit("caddy");
    assert("mongo"@[0] != "caddy"@[0]);
    reveal_strlit("lighttpd");
    assert("mongo"@.len() != "lighttpd"@.len());
    reveal_strlit("tomcat");
    assert("mongo"@.len() != "tomcat"@.len());
    reveal_strlit("mysql");
    assert("mongo"@[1] != "mysql"@[1]);
    reveal_strlit("postgres");
    assert("mongo"@.len() != "postgres"@.len());
    reveal_strlit("redis");
    assert("mongo"@[0] != "redis"@[0]);
    assert("mongo"@[1] != seq!['.', 'e', 'x', 'e'][0]);
    assert("mongo"@.subrange(1, 5)[0] == "mongo"@[1]);
    let w = "mongo"@ + ".exe"@;
    assert(w.subrange(w.len() - 4, w.len() as int) =~= seq!['.', 'e', 'x', 'e']);
    assert(w.subrange(0, w.len() - 4) =~= "mongo"@);
}

proof fn lemma_category_row_10()
    ensures
        category_of_name("mariadb"@) == PortCategory::Database,
        strip_exe("mariadb"@) == "mariadb"@,
        strip_exe("mariadb"@ + ".exe"@) == "mariadb"@,
{
    reveal_strlit("mariadb");
    reveal_strlit(".exe");
    reveal_strlit("nginx");
    assert("mariadb"@.len() != "nginx"@.len());
    reveal_strlit("apache");
    assert("mariadb"@.len() != "apache"@.len());
    reveal_strlit("httpd");
    assert("mariadb"@.len() != "httpd"@.len());
    reveal_strlit("caddy");
    assert("mariadb"@.len() != "caddy"@.len());
    reveal_strlit("lighttpd");
    assert("mariadb"@.len() != "lighttpd"@.len());
    reveal_strlit("tomcat");
    assert("mariadb"@.len() != "tomcat"@.len());
    reveal_strlit("mysql");
    assert("mariadb"@.len() != "mysql"@.len());
    reveal_strlit("postgres");
    assert("mariadb"@.len() != "postgres"@.len());
    reveal_strlit("redis");
    assert("mariadb"@.len() != "redis"@.len());
    reveal_strlit("mongo");
    assert("mariadb"@.len() != "mongo"@.len());
    assert("mariadb"@[3] != seq!['.', 'e', 'x', 'e'][0]);
    assert("mariadb"@.subrange(3, 7)[0] == "mariadb"@[3]);
    let w = "mariadb"@ + ".exe"@;
    assert(w.subrange(w.len() - 4, w.len() as int) =~= seq!['.', 'e', 'x', 'e']);
    assert(w.subrange(0, w.len() - 4) =~= "mariadb"@);
}

proof fn lemma_category_row_11()
    ensures
        category_of_name("sqlite3"@) == PortCategory::Database,
        strip_exe("sqlite3"@) == "sqlite3"@,
        strip_exe("sqlite3"@ + ".exe"@) == "sqlite3"@,
{
    reveal_strlit("sqlite3");
    reveal_strlit(".exe");
    reveal_strlit("nginx");
    assert("sqlite3"@.len() != "nginx"@.len());
    reveal_strlit("apache");
    assert("sqlite3"@.len() != "apache"@.len());
    reveal_strlit("httpd");
    assert("sqlite3"@.len() != "httpd"@.len());
    reveal_strlit("caddy");
    assert("sqlite3"@.len() != "caddy"@.len());
    reveal_strlit("lighttpd");
    assert("sqlite3"@.len() != "lighttpd"@.len());
    reveal_strlit("tomcat");
    assert("sqlite3"@.len() != "tomcat"@.len());
    reveal_strlit("mysql");
    assert("sqlite3"@.len() != "mysql"@.len());
    reveal_strlit("postgres");
    assert("sqlite3"@.len() != "postgres"@.len());
    reveal_strlit("redis");
    assert("sqlite3"@.len() != "redis"@.len());
    reveal_strlit("mongo");
    assert("sqlite3"@.len() != "mongo"@.len());
    reveal_strlit("mariadb");
    assert("sqlite3"@[0] != "mariadb"@[0]);
    assert("sqlite3"@[3] != seq!['.', 'e', 'x', 'e'][0]);
    assert("sqlite3"@.subrange(3, 7)[0] == "sqlite3"@[3]);
    let w = "sqlite3"@ + ".exe"@;
    assert(w.subrange(w.len() - 4, w.len() as int) =~= seq!['.', 'e', 'x', 'e']);
    assert(w.subrange(0, w.len() - 4) =~= "sqlite3"@);
}

proof fn lemma_category_row_12()
    ensures
        category_of_name("mongod"@) == PortCategory::Database,
        strip_exe("mongod"@) == "mongod"@,
        strip_exe("mongod"@ + ".exe"@) == "mongod"@,
{
    reveal_strlit("mongod");
    reveal_strlit(".exe");
    reveal_strlit("nginx");
    assert("mongod"@.len() != "nginx"@.len());
    reveal_strlit("apache");
    assert("mongod"@[0] != "apache"@[0]);
    reveal_strlit("httpd");
    assert("mongod"@.len() != "httpd"@.len());
    reveal_strlit("caddy");
    assert("mongod"@.len() != "caddy"@.len());
    reveal_strlit("lighttpd");
    assert("mongod"@.len() != "lighttpd"@.len());
    reveal_strlit("tomcat");
    assert("mongod"@[0] != "tomcat"@[0]);
    reveal_strlit("mysql");
    assert("mongod"@.len() != "mysql"@.len());
    reveal_strlit("postgres");
    assert("mongod"@.len() != "postgres"@.len());
    reveal_strlit("redis");
    assert("mongod"@.len() != "redis"@.len());
    reveal_strlit("mongo");
    assert("mongod"@.len() != "mongo"@.len());
    reveal_strlit("mariadb");
    assert("mongod"@.len() != "mariadb"@.len());
    reveal_strlit("sqlite3");
    assert("mongod"@.len() != "sqlite3"@.len());
    assert("mongod"@[2] != seq!['.', 'e', 'x', 'e'][0]);
    assert("mongod"@.subrange(2, 6)[0] == "mongod"@[2]);
    let w = "mongod"@ + ".exe"@;
    assert(w.subrange(w.len() - 4, w.len() as int) =~= seq!['.', 'e', 'x', 'e']);
    assert(w.subrange(0, w.len() - 4) =~= "mongod"@);
}

proof fn lemma_category_row_13()
    ensures
        category_of_name("mysqld"@) == PortCategory::Database,
        strip_exe("mysqld"@) == "mysqld"@,
        strip_exe("mysqld"@ + ".exe"@) == "mysqld"@,
{
    reveal_strlit("mysqld");
    reveal_strlit(".exe");
    reveal_strlit("nginx");
    assert("mysqld"@.len() != "nginx"@.len());
    reveal_strlit("apache");
    assert("mysqld"@[0] != "apache"@[0]);
    reveal_strlit("httpd");
    assert("mysqld"@.len() != "httpd"@.len());
    reveal_strlit("caddy");
    assert("mysqld"@.len() != "caddy"@.len());
    reveal_strlit("lighttpd");
    assert("mysqld"@.len() != "lighttpd"@.len());
    reveal_strlit("tomcat");
    assert("mysqld"@[0] != "tomcat"@[0]);
    reveal_strlit("mysql");
    assert("mysqld"@.len() != "mysql"@.len());
    reveal_strlit("postgres");
    assert("mysqld"@.len() != "postgres"@.len());
    reveal_strlit("redis");
    assert("mysqld"@.len() != "redis"@.len());
    reveal_strlit("mongo");
    assert("mysqld"@.len() != "mongo"@.len());
    reveal_strlit("mariadb");
    assert("mysqld"@.len() != "mariadb"@.len());
    reveal_strlit("sqlite3");
    assert("mysqld"@.len() != "sqlite3"@.len());
    reveal_strlit("mongod");
    assert("mysqld"@[1] != "mongod"@[1]);
    assert("mysqld"@[2] != seq!['.', 'e', 'x', 'e'][0]);
    assert("mysqld"@.subrange(2, 6)[0] == "mysqld"@[2]);
    let w = "mysqld"@ + ".exe"@;
    assert(w.subrange(w.len() - 4, w.len() as int) =~= seq!['.', 'e', 'x', 'e']);
    assert(w.subrange(0, w.len() - 4) =~= "mysqld"@);
}

proof fn lemma_category_row_14()
    ensures
        category_of_name("redis-server"@) == PortCategory::Database,
        strip_exe("redis-server"@) == "redis-server"@,
        strip_exe("redis-server"@ + ".exe"@) == "redis-server"@,
{
    reveal_strlit("redis-server");
    reveal_strlit(".exe");
    reveal_strlit("nginx");
    assert("redis-server"@.len() != "nginx"@.len());
    reveal_strlit("apache");
    assert("redis-server"@.len() != "apache"@.len());
    reveal_strlit("httpd");
    assert("redis-server"@.len() != "httpd"@.len());
    reveal_strlit("caddy");
    assert("redis-server"@.len() != "caddy"@.len());
    reveal_strlit("lighttpd");
    assert("redis-server"@.len() != "lighttpd"@.len());
    reveal_strlit("tomcat");
    assert("redis-server"@.len() != "tomcat"@.len());
    reveal_strlit("mysql");
    assert("redis-server"@.len() != "mysql"@.len());
    reveal_strlit("postgres");
    assert("redis-server"@.len() != "postgres"@.len());
    reveal_strlit("redis");
    assert("redis-server"@.len() != "redis"@.len());
    reveal_strlit("mongo");
    assert("redis-server"@.len() != "mongo"@.len());
    reveal_strlit("mariadb");
    assert("redis-server"@.len() != "mariadb"@.len());
    reveal_strlit("sqlite3");
    assert("redis-server"@.len() != "sqlite3"@.len());
    reveal_strlit("mongod");
    assert("redis-server"@.len() != "mongod"@.len());
    reveal_strlit("mysqld");
    assert("redis-server"@.len() != "mysqld"@.len());
    assert("redis-server"@[8] != seq!['.', 'e', 'x', 'e'][0]);
    assert("redis-server"@.subrange(8, 12)[0] == "redis-server"@[8]);
    let w = "redis-server"@ + ".exe"@;
    assert(w.subrange(w.len() - 4, w.len() as int) =~= seq!['.', 'e', 'x', 'e']);
    assert(w.subrange(0, w.len() - 4) =~= "redis-server"@);
}

proof fn lemma_category_row_15()
    ensures
        category_of_name("node"@) == PortCategory::Development,
        strip_exe("node"@) == "node"@,
        strip_exe("node"@ + ".exe"@) == "node"@,
{
    reveal_strlit("node");
    reveal_strlit(".exe");
    reveal_strlit("nginx");
    assert("node"@.len() != "nginx"@.len());
    reveal_strlit("apache");
    assert("node"@.len() != "apache"@.len());
    reveal_strlit("httpd");
    assert("node"@.len() != "httpd"@.len());
    reveal_strlit("caddy");
    assert("node"@.len() != "caddy"@.len());
    reveal_strlit("lighttpd");
    assert("node"@.len() != "lighttpd"@.len());
    reveal_strlit("tomcat");
    assert("node"@.len() != "tomcat"@.len());
    reveal_strlit("mysql");
    assert("node"@.len() != "mysql"@.len());
    reveal_strlit("postgres");
    assert("node"@.len() != "postgres"@.len());
    reveal_strlit("redis");
    assert("node"@.len() != "redis"@.len());
    reveal_strlit("mongo");
    assert("node"@.len() != "mongo"@.len());
    reveal_strlit("mariadb");
    assert("node"@.len() != "mariadb"@.len());
    reveal_strlit("sqlite3");
    assert("node"@.len() != "sqlite3"@.len());
    reveal_strlit("mongod");
    assert("node"@.len() != "mongod"@.len());
    reveal_strlit("mysqld");
    assert("node"@.len() != "mysqld"@.len());
    reveal_strlit("redis-server");
    assert("node"@.len() != "redis-server"@.len());
    assert("node"@[0] != seq!['.', 'e', 'x', 'e'][0]);
    assert("node"@.subrange(0, 4)[0] == "node"@[0]);
    let w = "node"@ + ".exe"@;
    assert(w.subrange(w.len() - 4, w.len() as int) =~= seq!['.', 'e', 'x', 'e']);
    assert(w.subrange(0, w.len() - 4) =~= "node"@);
}

proof fn lemma_category_row_16()
    ensures
        category_of_name("python"@) == PortCategory::Development,
        strip_exe("python"@) == "python"@,
        strip_exe("python"@ + ".exe"@) == "python"@,
{
    reveal_strlit("python");
    reveal_strlit(".exe");
    reveal_strlit("nginx");
    assert("python"@.len() != "nginx"@.len());
    reveal_strlit("apache");
    assert("python"@[0] != "apache"@[0]);
    reveal_strlit("httpd");
    assert("python"@.len() != "httpd"@.len());
    reveal_strlit("caddy");
    assert("python"@.len() != "caddy"@.len());
    reveal_strlit("lighttpd");
    assert("python"@.len() != "lighttpd"@.len());
    reveal_strlit("tomcat");
    assert("python"@[0] != "tomcat"@[0]);
    reveal_strlit("mysql");
    assert("python"@.len() != "mysql"@.len());
    reveal_strlit("postgres");
    assert("python"@.len() != "postgres"@.len());
    reveal_strlit("redis");
    assert("python"@.len() != "redis"@.len());
    reveal_strlit("mongo");
    assert("python"@.len() != "mongo"@.len());
    reveal_strlit("mariadb");
    assert("python"@.len() != "mariadb"@.len());
    reveal_strlit("sqlite3");
    assert("python"@.len() != "sqlite3"@.len());
    reveal_strlit("mongod");
    assert("python"@[0] != "mongod"@[0]);
    reveal_strlit("mysqld");
    assert("python"@[0] != "mysqld"@[0]);
    reveal_strlit("redis-server");
    assert("python"@.len() != "redis-server"@.len());
    reveal_strlit("node");
    assert("python"@.len() != "node"@.len());
    assert("python"@[2] != seq!['.', 'e', 'x', 'e'][0]);
    assert("python"@.subrange(2, 6)[0] == "python"@[2]);
    let w = "python"@ + ".exe"@;
    assert(w.subrange(w.len() - 4, w.len() as int) =~= seq!['.', 'e', 'x', 'e']);
    assert(w.subrange(0, w.len() - 4) =~= "python"@);
}

proof fn lemma_category_row_17()
    ensures
        category_of_name("java"@) == PortCategory::Development,
        strip_exe("java"@) == "java"@,
        strip_exe("java"@ + ".exe"@) == "java"@,
{
    reveal_strlit("java");
    reveal_strlit(".exe");
    reveal_strlit("nginx");
    assert("java"@.len() != "nginx"@.len());
    reveal_strlit("apache");
    assert("java"@.len() != "apache"@.len());
    reveal_strlit("httpd");
    assert("java"@.len() != "httpd"@.len());
    reveal_strlit("caddy");
    assert("java"@.len() != "caddy"@.len());
    reveal_strlit("lighttpd");
    assert("java"@.len() != "lighttpd"@.len());
    reveal_strlit("tomcat");
    assert("java"@.len() != "tomcat"@.len());
    reveal_strlit("mysql");
    assert("java"@.len() != "mysql"@.len());
    reveal_strlit("postgres");
    assert("java"@.len() != "postgres"@.len());
    reveal_strlit("redis");
    assert("java"@.len() != "redis"@.len());
    reveal_strlit("mongo");
    assert("java"@.len() != "mongo"@.len());
    reveal_strlit("mariadb");
    assert("java"@.len() != "mariadb"@.len());
    reveal_strlit("sqlite3");
    assert("java"@.len() != "sqlite3"@.len());
    reveal_strlit("mongod");
    assert("java"@.len() != "mongod"@.len());
    reveal_strlit("mysqld");
    assert("java"@.len() != "mysqld"@.len());
    reveal_strlit("redis-server");
    assert("java"@.len() != "redis-server"@.len());
    reveal_strlit("node");
    assert("java"@[0] != "node"@[0]);
    reveal_strlit("python");
    assert("java"@.len() != "python"@.len());
    assert("java"@[0] != seq!['.', 'e', 'x', 'e'][0]);
    assert("java"@.subrange(0, 4)[0] == "java"@[0]);
    let w = "java"@ + ".exe"@;
    assert(w.subrange(w.len() - 4, w.len() as int) =~= seq!['.', 'e', 'x', 'e']);
    assert(w.subrange(0, w.len() - 4) =~= "java"@);
}

proof fn lemma_category_row_18()
    ensures
        category_of_name("dotnet"@) == PortCategory::Development,
        strip_exe("dotnet"@) == "dotnet"@,
        strip_exe("dotnet"@ + ".exe"@) == "dotnet"@,
{
    reveal_strlit("dotnet");
    reveal_strlit(".exe");
    reveal_strlit("nginx");
    assert("dotnet"@.len() != "nginx"@.len());
    reveal_strlit("apache");
    assert("dotnet"@[0] != "apache"@[0]);
    reveal_strlit("httpd");
    assert("dotnet"@.len() != "httpd"@.len());
    reveal_strlit("caddy");
    assert("dotnet"@.len() != "caddy"@.len());
    reveal_strlit("lighttpd");
    assert("dotnet"@.len() != "lighttpd"@.len());
    reveal_strlit("tomcat");
    assert("dotnet"@[0] != "tomcat"@[0]);
    reveal_strlit("mysql");
    assert("dotnet"@.len() != "mysql"@.len());
    reveal_strlit("postgres");
    assert("dotnet"@.len() != "postgres"@.len());
    reveal_strlit("redis");
    assert("dotnet"@.len() != "redis"@.len());
    reveal_strlit("mongo");
    assert("dotnet"@.len() != "mongo"@.len());
    reveal_strlit("mariadb");
    assert("dotnet"@.len() != "mariadb"@.len());
    reveal_strlit("sqlite3");
    assert("dotnet"@.len() != "sqlite3"@.len());
    reveal_strlit("mongod");
    assert("dotnet"@[0] != "mongod"@[0]);
    reveal_strlit("mysqld");
    assert("dotnet"@[0] != "mysqld"@[0]);
    reveal_strlit("redis-server");
    assert("dotnet"@.len() != "redis-server"@.len());
    reveal_strlit("node");
    assert("dotnet"@.len() != "node"@.len());
    reveal_strlit("python");
    assert("dotnet"@[0] != "python"@[0]);
    reveal_strlit("java");
    assert("dotnet"@.len() != "java"@.len());
    assert("dotnet"@[2] != seq!['.', 'e', 'x', 'e'][0]);
    assert("dotnet"@.subrange(2, 6)[0] == "dotnet"@[2]);
    let w = "dotnet"@ + ".exe"@;
    assert(w.subrange(w.len() - 4, w.len() as int) =~= seq!['.', 'e', 'x', 'e']);
    assert(w.subrange(0, w.len() - 4) =~= "dotnet"@);
}

proof fn lemma_category_row_19()
    ensures
        category_of_name("ruby"@) == PortCategory::Development,
        strip_exe("ruby"@) == "ruby"@,
        strip_exe("ruby"@ + ".exe"@) == "ruby"@,
{
    reveal_strlit("ruby");
    reveal_strlit(".exe");
    reveal_strlit("nginx");
    assert("ruby"@.len() != "nginx"@.len());
    reveal_strlit("apache");
    assert("ruby"@.len() != "apache"@.len());
    reveal_strlit("httpd");
    assert("ruby"@.len() != "httpd"@.len());
    reveal_strlit("caddy");
    assert("ruby"@.len() != "caddy"@.len());
    reveal_strlit("lighttpd");
    assert("ruby"@.len() != "lighttpd"@.len());
    reveal_strlit("tomcat");
    assert("ruby"@.len() != "tomcat"@.len());
    reveal_strlit("mysql");
    assert("ruby"@.len() != "mysql"@.len());
    reveal_strlit("postgres");
    assert("ruby"@.len() != "postgres"@.len());
    reveal_strlit("redis");
    assert("ruby"@.len() != "redis"@.len());
    reveal_strlit("mongo");
    assert("ruby"@.len() != "mongo"@.len());
    reveal_strlit("mariadb");
    assert("ruby"@.len() != "mariadb"@.len());
    reveal_strlit("sqlite3");
    assert("ruby"@.len() != "sqlite3"@.len());
    reveal_strlit("mongod");
    assert("ruby"@.len() != "mongod"@.len());
    reveal_strlit("mysqld");
    assert("ruby"@.len() != "mysqld"@.len());
    reveal_strlit("redis-server");
    assert("ruby"@.len() != "redis-server"@.len());
    reveal_strlit("node");
    assert("ruby"@[0] != "node"@[0]);
    reveal_strlit("python");
    assert("ruby"@.len() != "python"@.len());
    reveal_strlit("java");
    assert("ruby"@[0] != "java"@[0]);
    reveal_strlit("dotnet");
    assert("ruby"@.len() != "dotnet"@.len());
    assert("ruby"@[0] != seq!['.', 'e', 'x', 'e'][0]);
    assert("ruby"@.subrange(0, 4)[0] == "ruby"@[0]);
    let w = "ruby"@ + ".exe"@;
    assert(w.subrange(w.len() - 4, w.len() as int) =~= seq!['.', 'e', 'x', 'e']);
    assert(w.subrange(0, w.len() - 4) =~= "ruby"@);
}

proof fn lemma_category_row_20()
    ensures
        category_of_name("go"@) == PortCategory::Development,
        strip_exe("go"@) == "go"@,
        strip_exe("go"@ + ".exe"@) == "go"@,
{
    reveal_strlit("go");
    reveal_strlit(".exe");
    reveal_strlit("nginx");
    assert("go"@.len() != "nginx"@.len());
    reveal_strlit("apache");
    assert("go"@.len() != "apache"@.len());
    reveal_strlit("httpd");
    assert("go"@.len() != "httpd"@.len());
    reveal_strlit("caddy");
    assert("go"@.len() != "caddy"@.len());
    reveal_strlit("lighttpd");
    assert("go"@.len() != "lighttpd"@.len());
    reveal_strlit("tomcat");
    assert("go"@.len() != "tomcat"@.len());
    reveal_strlit("mysql");
    assert("go"@.len() != "mysql"@.len());
    reveal_strlit("postgres");
    assert("go"@.len() != "postgres"@.len());
    reveal_strlit("redis");
    assert("go"@.len() != "redis"@.len());
    reveal_strlit("mongo");
    assert("go"@.len() != "mongo"@.len());
    reveal_strlit("mariadb");
    assert("go"@.len() != "mariadb"@.len());
    reveal_strlit("sqlite3");
    assert("go"@.len() != "sqlite3"@.len());
    reveal_strlit("mongod");
    assert("go"@.len() != "mongod"@.len());
    reveal_strlit("mysqld");
    assert("go"@.len() != "mysqld"@.len());
    reveal_strlit("redis-server");
    assert("go"@.len() != "redis-server"@.len());
    reveal_strlit("node");
    assert("go"@.len() != "node"@.len());
    reveal_strlit("python");
    assert("go"@.len() != "python"@.len());
    reveal_strlit("java");
    assert("go"@.len() != "java"@.len());
    reveal_strlit("dotnet");
    assert("go"@.len() != "dotnet"@.len());
    reveal_strlit("ruby");
    assert("go"@.len() != "ruby"@.len());
    let w = "go"@ + ".exe"@;
    assert(w.subrange(w.len() - 4, w.len() as int) =~= seq!['.', 'e', 'x', 'e']);
    assert(w.subrange(0, w.len() - 4) =~= "go"@);
}

proof fn lemma_category_row_21()
    ensures
        category_of_name("cargo"@) == PortCategory::Development,
        strip_exe("cargo"@) == "cargo"@,
        strip_exe("cargo"@ + ".exe"@) == "cargo"@,
{
    reveal_strlit("cargo");
    reveal_strlit(".exe");
    reveal_strlit("nginx");
    assert("cargo"@[0] != "nginx"@[0]);
    reveal_strlit("apache");
    assert("cargo"@.len() != "apache"@.len());
    reveal_strlit("httpd");
    assert("cargo"@[0] != "httpd"@[0]);
    reveal_strlit("caddy");
    assert("cargo"@[2] != "caddy"@[2]);
    reveal_strlit("lighttpd");
    assert("cargo"@.len() != "lighttpd"@.len());
    reveal_strlit("tomcat");
    assert("cargo"@.len() != "tomcat"@.len());
    reveal_strlit("mysql");
    assert("cargo"@[0] != "mysql"@[0]);
    reveal_strlit("postgres");
    assert("cargo"@.len() != "postgres"@.len());
    reveal_strlit("redis");
    assert("cargo"@[0] != "redis"@[0]);
    reveal_strlit("mongo");
    assert("cargo"@[0] != "mongo"@[0]);
    reveal_strlit("mariadb");
    assert("cargo"@.len() != "mariadb"@.len());
    reveal_strlit("sqlite3");
    assert("cargo"@.len() != "sqlite3"@.len());
    reveal_strlit("mongod");
    assert("cargo"@.len() != "mongod"@.len());
    reveal_strlit("mysqld");
    assert("cargo"@.len() != "mysqld"@.len());
    reveal_strlit("redis-server");
    assert("cargo"@.len() != "redis-server"@.len());
    reveal_strlit("node");
    assert("cargo"@.len() != "node"@.len());
    reveal_strlit("python");
    assert("cargo"@.len() != "python"@.len());
    reveal_strlit("java");
    assert("cargo"@.len() != "java"@.len());
    reveal_strlit("dotnet");
    assert("cargo"@.len() != "dotnet"@.len());
    reveal_strlit("ruby");
    assert("cargo"@.len() != "ruby"@.len());
    reveal_strlit("go");
    assert("cargo"@.len() != "go"@.len());
    assert("cargo"@[1] != seq!['.', 'e', 'x', 'e'][0]);
    assert("cargo"@.subrange(1, 5)[0] == "cargo"@[1]);
    let w = "cargo"@ + ".exe"@;
    assert(w.subrange(w.len() - 4, w.len() as int) =~= seq!['.', 'e', 'x', 'e']);
    assert(w.subrange(0, w.len() - 4) =~= "cargo"@);
}

proof fn lemma_category_row_22()
    ensures
        category_of_name("php"@) == PortCategory::Development,
        strip_exe("php"@) == "php"@,
        strip_exe("php"@ + ".exe"@) == "php"@,
{
    reveal_strlit("php");
    reveal_strlit(".exe");
    reveal_strlit("nginx");
    assert("php"@.len() != "nginx"@.len());
    reveal_strlit("apache");
    assert("php"@.len() != "apache"@.len());
    reveal_strlit("httpd");
    assert("php"@.len() != "httpd"@.len());
    reveal_strlit("caddy");
    assert("php"@.len() != "caddy"@.len());
    reveal_strlit("lighttpd");
    assert("php"@.len() != "lighttpd"@.len());
    reveal_strlit("tomcat");
    assert("php"@.len() != "tomcat"@.len());
    reveal_strlit("mysql");
    assert("php"@.len() != "mysql"@.len());
    reveal_strlit("postgres");
    assert("php"@.len() != "postgres"@.len());
    reveal_strlit("redis");
    assert("php"@.len() != "redis"@.len());
    reveal_strlit("mongo");
    assert("php"@.len() != "mongo"@.len());
    reveal_strlit("mariadb");
    assert("php"@.len() != "mariadb"@.len());
    reveal_strlit("sqlite3");
    assert("php"@.len() != "sqlite3"@.len());
    reveal_strlit("mongod");
    assert("php"@.len() != "mongod"@.len());
    reveal_strlit("mysqld");
    assert("php"@.len() != "mysqld"@.len());
    reveal_strlit("redis-server");
    assert("php"@.len() != "redis-server"@.len());
    reveal_strlit("node");
    assert("php"@.len() != "node"@.len());
    reveal_strlit("python");
    assert("php"@.len() != "python"@.len());
    reveal_strlit("java");
    assert("php"@.len() != "java"@.len());
    reveal_strlit("dotnet");
    assert("php"@.len() != "dotnet"@.len());
    reveal_strlit("ruby");
    assert("php"@.len() != "ruby"@.len());
    reveal_strlit("go");
    assert("php"@.len() != "go"@.len());
    reveal_strlit("cargo");
    assert("php"@.len() != "cargo"@.len());
    let w = "php"@ + ".exe"@;
    assert(w.subrange(w.len() - 4, w.len() as int) =~= seq!['.', 'e', 'x', 'e']);
    assert(w.subrange(0, w.len() - 4) =~= "php"@);
}

proof fn lemma_category_row_23()
    ensures
        category_of_name("puma"@) == PortCategory::Development,
        strip_exe("puma"@) == "puma"@,
        strip_exe("puma"@ + ".exe"@) == "puma"@,
{
    reveal_strlit("puma");
    reveal_strlit(".exe");
    reveal_strlit("nginx");
    assert("puma"@.len() != "nginx"@.len());
    reveal_strlit("apache");
    assert("puma"@.len() != "apache"@.len());
    reveal_strlit("httpd");
    assert("puma"@.len() != "httpd"@.len());
    reveal_strlit("caddy");
    assert("puma"@.len() != "caddy"@.len());
    reveal_strlit("lighttpd");
    assert("puma"@.len() != "lighttpd"@.len());
    reveal_strlit("tomcat");
    assert("puma"@.len() != "tomcat"@.len());
    reveal_strlit("mysql");
    assert("puma"@.len() != "mysql"@.len());
    reveal_strlit("postgres");
    assert("puma"@.len() != "postgres"@.len());
    reveal_strlit("redis");
    assert("puma"@.len() != "redis"@.len());
    reveal_strlit("mongo");
    assert("puma"@.len() != "mongo"@.len());
    reveal_strlit("mariadb");
    assert("puma"@.len() != "mariadb"@.len());
    reveal_strlit("sqlite3");
    assert("puma"@.len() != "sqlite3"@.len());
    reveal_strlit("mongod");
    assert("puma"@.len() != "mongod"@.len());
    reveal_strlit("mysqld");
    assert("puma"@.len() != "mysqld"@.len());
    reveal_strlit("redis-server");
    assert("puma"@.len() != "redis-server"@.len());
    reveal_strlit("node");
    assert("puma"@[0] != "node"@[0]);
    reveal_strlit("python");
    assert("puma"@.len() != "python"@.len());
    reveal_strlit("java");
    assert("puma"@[0] != "java"@[0]);
    reveal_strlit("dotnet");
    assert("puma"@.len() != "dotnet"@.len());
    reveal_strlit("ruby");
    assert("puma"@[0] != "ruby"@[0]);
    reveal_strlit("go");
    assert("puma"@.len() != "go"@.len());
    reveal_strlit("cargo");
    assert("puma"@.len() != "cargo"@.len());
    reveal_strlit("php");
    assert("puma"@.len() != "php"@.len());
    assert("puma"@[0] != seq!['.', 'e', 'x', 'e'][0]);
    assert("puma"@.subrange(0, 4)[0] == "puma"@[0]);
    let w = "puma"@ + ".exe"@;
    assert(w.subrange(w.len() - 4, w.len() as int) =~= seq!['.', 'e', 'x', 'e']);
    assert(w.subrange(0, w.len() - 4) =~= "puma"@);
}

proof fn lemma_category_row_24()
    ensures
        category_of_name("uvicorn"@) == PortCategory::Development,
        strip_exe("uvicorn"@) == "uvicorn"@,
        strip_exe("uvicorn"@ + ".exe"@) == "uvicorn"@,
{
    reveal_strlit("uvicorn");
    reveal_strlit(".exe");
    reveal_strlit("nginx");
    assert("uvicorn"@.len() != "nginx"@.len());
    reveal_strlit("apache");
    assert("uvicorn"@.len() != "apache"@.len());
    reveal_strlit("httpd");
    assert("uvicorn"@.len() != "httpd"@.len());
    reveal_strlit("caddy");
    assert("uvicorn"@.len() != "caddy"@.len());
    reveal_strlit("lighttpd");
    assert("uvicorn"@.len() != "lighttpd"@.len());
    reveal_strlit("tomcat");
    assert("uvicorn"@.len() != "tomcat"@.len());
    reveal_strlit("mysql");
    assert("uvicorn"@.len() != "mysql"@.len());
    reveal_strlit("postgres");
    assert("uvicorn"@.len() != "postgres"@.len());
    reveal_strlit("redis");
    assert("uvicorn"@.len() != "redis"@.len());
    reveal_strlit("mongo");
    assert("uvicorn"@.len() != "mongo"@.len());
    reveal_strlit("mariadb");
    assert("uvicorn"@[0] != "mariadb"@[0]);
    reveal_strlit("sqlite3");
    assert("uvicorn"@[0] != "sqlite3"@[0]);
    reveal_strlit("mongod");
    assert("uvicorn"@.len() != "mongod"@.len());
    reveal_strlit("mysqld");
    assert("uvicorn"@.len() != "mysqld"@.len());
    reveal_strlit("redis-server");
    assert("uvicorn"@.len() != "redis-server"@.len());
    reveal_strlit("node");
    assert("uvicorn"@.len() != "node"@.len());
    reveal_strlit("python");
    assert("uvicorn"@.len() != "python"@.len());
    reveal_strlit("java");
    assert("uvicorn"@.len() != "java"@.len());
    reveal_strlit("dotnet");
    assert("uvicorn"@.len() != "dotnet"@.len());
    reveal_strlit("ruby");
    assert("uvicorn"@.len() != "ruby"@.len());
    reveal_strlit("go");
    assert("uvicorn"@.len() != "go"@.len());
    reveal_strlit("cargo");
    assert("uvicorn"@.len() != "cargo"@.len());
    reveal_strlit("php");
    assert("uvicorn"@.len() != "php"@.len());
    reveal_strlit("puma");
    assert("uvicorn"@.len() != "puma"@.len());
    assert("uvicorn"@[3] != seq!['.', 'e', 'x', 'e'][0]);
    assert("uvicorn"@.subrange(3, 7)[0] == "uvicorn"@[3]);
    let w = "uvicorn"@ + ".exe"@;
    assert(w.subrange(w.len() - 4, w.len() as int) =~= seq!['.', 'e', 'x', 'e']);
    assert(w.subrange(0, w.len() - 4) =~= "uvicorn"@);
}

proof fn lemma_category_row_25()
    ensures
        category_of_name("gunicorn"@) == PortCategory::Development,
        strip_exe("gunicorn"@) == "gunicorn"@,
        strip_exe("gunicorn"@ + ".exe"@) == "gunicorn"@,
{
    reveal_strlit("gunicorn");
    reveal_strlit(".exe");
    reveal_strlit("nginx");
    assert("gunicorn"@.len() != "nginx"@.len());
    reveal_strlit("apache");
    assert("gunicorn"@.len() != "apache"@.len());
    reveal_strlit("httpd");
    assert("gunicorn"@.len() != "httpd"@.len());
    reveal_strlit("caddy");
    assert("gunicorn"@.len() != "caddy"@.len());
    reveal_strlit("lighttpd");
    assert("gunicorn"@[0] != "lighttpd"@[0]);
    reveal_strlit("tomcat");
    assert("gunicorn"@.len() != "tomcat"@.len());
    reveal_strlit("mysql");
    assert("gunicorn"@.len() != "mysql"@.len());
    reveal_strlit("postgres");
    assert("gunicorn"@[0] != "postgres"@[0]);
    reveal_strlit("redis");
    assert("gunicorn"@.len() != "redis"@.len());
    reveal_strlit("mongo");
    assert("gunicorn"@.len() != "mongo"@.len());
    reveal_strlit("mariadb");
    assert("gunicorn"@.len() != "mariadb"@.len());
    reveal_strlit("sqlite3");
    assert("gunicorn"@.len() != "sqlite3"@.len());
    reveal_strlit("mongod");
    assert("gunicorn"@.len() != "mongod"@.len());
    reveal_strlit("mysqld");
    assert("gunicorn"@.len() != "mysqld"@.len());
    reveal_strlit("redis-server");
    assert("gunicorn"@.len() != "redis-server"@.len());
    reveal_strlit("node");
    assert("gunicorn"@.len() != "node"@.len());
    reveal_strlit("python");
    assert("gunicorn"@.len() != "python"@.len());
    reveal_strlit("java");
    assert("gunicorn"@.len() != "java"@.len());
    reveal_strlit("dotnet");
    assert("gunicorn"@.len() != "dotnet"@.len());
    reveal_strlit("ruby");
    assert("gunicorn"@.len() != "ruby"@.len());
    reveal_strlit("go");
    assert("gunicorn"@.len() != "go"@.len());
    reveal_strlit("cargo");
    assert("gunicorn"@.len() != "cargo"@.len());
    reveal_strlit("php");
    assert("gunicorn"@.len() != "php"@.len());
    reveal_strlit("puma");
    assert("gunicorn"@.len() != "puma"@.len());
    reveal_strlit("uvicorn");
    assert("gunicorn"@.len() != "uvicorn"@.len());
    assert("gunicorn"@[4] != seq!['.', 'e', 'x', 'e'][0]);
    assert("gunicorn"@.subrange(4, 8)[0] == "gunicorn"@[4]);
    let w = "gunicorn"@ + ".exe"@;
    assert(w.subrange(w.len() - 4, w.len() as int) =~= seq!['.', 'e', 'x', 'e']);
    assert(w.subrange(0, w.len() - 4) =~= "gunicorn"@);
}

proof fn lemma_category_row_26()
    ensures
        category_of_name("svchost"@) == PortCategory::System,
        strip_exe("svchost"@) == "svchost"@,
        strip_exe("svchost"@ + ".exe"@) == "svchost"@,
{
    reveal_strlit("svchost");
    reveal_strlit(".exe");
    reveal_strlit("nginx");
    assert("svchost"@.len() != "nginx"@.len());
    reveal_strlit("apache");
    assert("svchost"@.len() != "apache"@.len());
    reveal_strlit("httpd");
    assert("svchost"@.len() != "httpd"@.len());
    reveal_strlit("caddy");
    assert("svchost"@.len() != "caddy"@.len());
    reveal_strlit("lighttpd");
    assert("svchost"@.len() != "lighttpd"@.len());
    reveal_strlit("tomcat");
    assert("svchost"@.len() != "tomcat"@.len());
    reveal_strlit("mysql");
    assert("svchost"@.len() != "mysql"@.len());
    reveal_strlit("postgres");
    assert("svchost"@.len() != "postgres"@.len());
    reveal_strlit("redis");
    assert("svchost"@.len() != "redis"@.len());
    reveal_strlit("mongo");
    assert("svchost"@.len() != "mongo"@.len());
    reveal_strlit("mariadb");
    assert("svchost"@[0] != "mariadb"@[0]);
    reveal_strlit("sqlite3");
    assert("svchost"@[1] != "sqlite3"@[1]);
    reveal_strlit("mongod");
    assert("svchost"@.len() != "mongod"@.len());
    reveal_strlit("mysqld");
    assert("svchost"@.len() != "mysqld"@.len());
    reveal_strlit("redis-server");
    assert("svchost"@.len() != "redis-server"@.len());
    reveal_strlit("node");
    assert("svchost"@.len() != "node"@.len());
    reveal_strlit("python");
    assert("svchost"@.len() != "python"@.len());
    reveal_strlit("java");
    assert("svchost"@.len() != "java"@.len());
    reveal_strlit("dotnet");
    assert("svchost"@.len() != "dotnet"@.len());
    reveal_strlit("ruby");
    assert("svchost"@.len() != "ruby"@.len());
    reveal_strlit("go");
    assert("svchost"@.len() != "go"@.len());
    reveal_strlit("cargo");
    assert("svchost"@.len() != "cargo"@.len());
    reveal_strlit("php");
    assert("svchost"@.len() != "php"@.len());
    reveal_strlit("puma");
    assert("svchost"@.len() != "puma"@.len());
    reveal_strlit("uvicorn");
    assert("svchost"@[0] != "uvicorn"@[0]);
    reveal_strlit("gunicorn");
    assert("svchost"@.len() != "gunicorn"@.len());
    assert("svchost"@[3] != seq!['.', 'e', 'x', 'e'][0]);
    assert("svchost"@.subrange(3, 7)[0] == "svchost"@[3]);
    let w = "svchost"@ + ".exe"@;
    assert(w.subrange(w.len() - 4, w.len() as int) =~= seq!['.', 'e', 'x', 'e']);
    assert(w.subrange(0, w.len() - 4) =~= "svchost"@);
}

proof fn lemma_category_row_27()
    ensures
        category_of_name("system"@) == PortCategory::System,
        strip_exe("system"@) == "system"@,
        strip_exe("system"@ + ".exe"@) == "system"@,
{
    reveal_strlit("system");
    reveal_strlit(".exe");
    reveal_strlit("nginx");
    assert("system"@.len() != "nginx"@.len());
    reveal_strlit("apache");
    assert("system"@[0] != "apache"@[0]);
    reveal_strlit("httpd");
    assert("system"@.len() != "httpd"@.len());
    reveal_strlit("caddy");
    assert("system"@.len() != "caddy"@.len());
    reveal_strlit("lighttpd");
    assert("system"@.len() != "lighttpd"@.len());
    reveal_strlit("tomcat");
    assert("system"@[0] != "tomcat"@[0]);
    reveal_strlit("mysql");
    assert("system"@.len() != "mysql"@.len());
    reveal_strlit("postgres");
    assert("system"@.len() != "postgres"@.len());
    reveal_strlit("redis");
    assert("system"@.len() != "redis"@.len());
    reveal_strlit("mongo");
    assert("system"@.len() != "mongo"@.len());
    reveal_strlit("mariadb");
    assert("system"@.len() != "mariadb"@.len());
    reveal_strlit("sqlite3");
    assert("system"@.len() != "sqlite3"@.len());
    reveal_strlit("mongod");
    assert("system"@[0] != "mongod"@[0]);
    reveal_strlit("mysqld");
    assert("system"@[0] != "mysqld"@[0]);
    reveal_strlit("redis-server");
    assert("system"@.len() != "redis-server"@.len());
    reveal_strlit("node");
    assert("system"@.len() != "node"@.len());
    reveal_strlit("python");
    assert("system"@[0] != "python"@[0]);
    reveal_strlit("java");
    assert("system"@.len() != "java"@.len());
    reveal_strlit("dotnet");
    assert("system"@[0] != "dotnet"@[0]);
    reveal_strlit("ruby");
    assert("system"@.len() != "ruby"@.len());
    reveal_strlit("go");
    assert("system"@.len() != "go"@.len());
    reveal_strlit("cargo");
    assert("system"@.len() != "cargo"@.len());
    reveal_strlit("php");
    assert("system"@.len() != "php"@.len());
    reveal_strlit("puma");
    assert("system"@.len() != "puma"@.len());
    reveal_strlit("uvicorn");
    assert("system"@.len() != "uvicorn"@.len());
    reveal_strlit("gunicorn");
    assert("system"@.len() != "gunicorn"@.len());
    reveal_strlit("svchost");
    assert("system"@.len() != "svchost"@.len());
    assert("system"@[2] != seq!['.', 'e', 'x', 'e'][0]);
    assert("system"@.subrange(2, 6)[0] == "system"@[2]);
    let w = "system"@ + ".exe"@;
    assert(w.subrange(w.len() - 4, w.len() as int) =~= seq!['.', 'e', 'x', 'e']);
    assert(w.subrange(0, w.len() - 4) =~= "system"@);
}

proof fn lemma_category_row_28()
    ensures
        category_of_name("kernel_task"@) == PortCategory::System,
        strip_exe("kernel_task"@) == "kernel_task"@,
        strip_exe("kernel_task"@ + ".exe"@) == "kernel_task"@,
{
    reveal_strlit("kernel_task");
    reveal_strlit(".exe");
    reveal_strlit("nginx");
    assert("kernel_task"@.len() != "nginx"@.len());
    reveal_strlit("apache");
    assert("kernel_task"@.len() != "apache"@.len());
    reveal_strlit("httpd");
    assert("kernel_task"@.len() != "httpd"@.len());
    reveal_strlit("caddy");
    assert("kernel_task"@.len() != "caddy"@.len());
    reveal_strlit("lighttpd");
    assert("kernel_task"@.len() != "lighttpd"@.len());
    reveal_strlit("tomcat");
    assert("kernel_task"@.len() != "tomcat"@.len());
    reveal_strlit("mysql");
    assert("kernel_task"@.len() != "mysql"@.len());
    reveal_strlit("postgres");
    assert("kernel_task"@.len() != "postgres"@.len());
    reveal_strlit("redis");
    assert("kernel_task"@.len() != "redis"@.len());
    reveal_strlit("mongo");
    assert("kernel_task"@.len() != "mongo"@.len());
    reveal_strlit("mariadb");
    assert("kernel_task"@.len() != "mariadb"@.len());
    reveal_strlit("sqlite3");
    assert("kernel_task"@.len() != "sqlite3"@.len());
    reveal_strlit("mongod");
    assert("kernel_task"@.len() != "mongod"@.len());
    reveal_strlit("mysqld");
    assert("kernel_task"@.len() != "mysqld"@.len());
    reveal_strlit("redis-server");
    assert("kernel_task"@.len() != "redis-server"@.len());
    reveal_strlit("node");
    assert("kernel_task"@.len() != "node"@.len());
    reveal_strlit("python");
    assert("kernel_task"@.len() != "python"@.len());
    reveal_strlit("java");
    assert("kernel_task"@.len() != "java"@.len());
    reveal_strlit("dotnet");
    assert("kernel_task"@.len() != "dotnet"@.len());
    reveal_strlit("ruby");
    assert("kernel_task"@.len() != "ruby"@.len());
    reveal_strlit("go");
    assert("kernel_task"@.len() != "go"@.len());
    reveal_strlit("cargo");
    assert("kernel_task"@.len() != "cargo"@.len());
    reveal_strlit("php");
    assert("kernel_task"@.len() != "php"@.len());
    reveal_strlit("puma");
    assert("kernel_task"@.len() != "puma"@.len());
    reveal_strlit("uvicorn");
    assert("kernel_task"@.len() != "uvicorn"@.len());
    reveal_strlit("gunicorn");
    assert("kernel_task"@.len() != "gunicorn"@.len());
    reveal_strlit("svchost");
    assert("kernel_task"@.len() != "svchost"@.len());
    reveal_strlit("system");
    assert("kernel_task"@.len() != "system"@.len());
    assert("kernel_task"@[7] != seq!['.', 'e', 'x', 'e'][0]);
    assert("kernel_task"@.subrange(7, 11)[0] == "kernel_task"@[7]);
    let w = "kernel_task"@ + ".exe"@;
    assert(w.subrange(w.len() - 4, w.len() as int) =~= seq!['.', 'e', 'x', 'e']);
    assert(w.subrange(0, w.len() - 4) =~= "kernel_task"@);
}

proof fn lemma_category_row_29()
    ensures
        category_of_name("launchd"@) == PortCategory::System,
        strip_exe("launchd"@) == "launchd"@,
        strip_exe("launchd"@ + ".exe"@) == "launchd"@,
{
    reveal_strlit("launchd");
    reveal_strlit(".exe");
    reveal_strlit("nginx");
    assert("launchd"@.len() != "nginx"@.len());
    reveal_strlit("apache");
    assert("launchd"@.len() != "apache"@.len());
    reveal_strlit("httpd");
    assert("launchd"@.len() != "httpd"@.len());
    reveal_strlit("caddy");
    assert("launchd"@.len() != "caddy"@.len());
    reveal_strlit("lighttpd");
    assert("launchd"@.len() != "lighttpd"@.len());
    reveal_strlit("tomcat");
    assert("launchd"@.len() != "tomcat"@.len());
    reveal_strlit("mysql");
    assert("launchd"@.len() != "mysql"@.len());
    reveal_strlit("postgres");
    assert("launchd"@.len() != "postgres"@.len());
    reveal_strlit("redis");
    assert("launchd"@.len() != "redis"@.len());
    reveal_strlit("mongo");
    assert("launchd"@.len() != "mongo"@.len());
    reveal_strlit("mariadb");
    assert("launchd"@[0] != "mariadb"@[0]);
    reveal_strlit("sqlite3");
    assert("launchd"@[0] != "sqlite3"@[0]);
    reveal_strlit("mongod");
    assert("launchd"@.len() != "mongod"@.len());
    reveal_strlit("mysqld");
    assert("launchd"@.len() != "mysqld"@.len());
    reveal_strlit("redis-server");
    assert("launchd"@.len() != "redis-server"@.len());
    reveal_strlit("node");
    assert("launchd"@.len() != "node"@.len());
    reveal_strlit("python");
    assert("launchd"@.len() != "python"@.len());
    reveal_strlit("java");
    assert("launchd"@.len() != "java"@.len());
    reveal_strlit("dotnet");
    assert("launchd"@.len() != "dotnet"@.len());
    reveal_strlit("ruby");
    assert("launchd"@.len() != "ruby"@.len());
    reveal_strlit("go");
    assert("launchd"@.len() != "go"@.len());
    reveal_strlit("cargo");
    assert("launchd"@.len() != "cargo"@.len());
    reveal_strlit("php");
    assert("launchd"@.len() != "php"@.len());
    reveal_strlit("puma");
    assert("launchd"@.len() != "puma"@.len());
    reveal_strlit("uvicorn");
    assert("launchd"@[0] != "uvicorn"@[0]);
    reveal_strlit("gunicorn");
    assert("launchd"@.len() != "gunicorn"@.len());
    reveal_strlit("svchost");
    assert("launchd"@[0] != "svchost"@[0]);
    reveal_strlit("system");
    assert("launchd"@.len() != "system"@.len());
    reveal_strlit("kernel_task");
    assert("launchd"@.len() != "kernel_task"@.len());
    assert("launchd"@[3] != seq!['.', 'e', 'x', 'e'][0]);
    assert("launchd"@.subrange(3, 7)[0] == "launchd"@[3]);
    let w = "launchd"@ + ".exe"@;
    assert(w.subrange(w.len() - 4, w.len() as int) =~= seq!['.', 'e', 'x', 'e']);
    assert(w.subrange(0, w.len() - 4) =~= "launchd"@);
}

proof fn lemma_category_row_30()
    ensures
        category_of_name("systemd"@) == PortCategory::System,
        strip_exe("systemd"@) == "systemd"@,
        strip_exe("systemd"@ + ".exe"@) == "systemd"@,
{
    reveal_strlit("systemd");
    reveal_strlit(".exe");
    reveal_strlit("nginx");
    assert("systemd"@.len() != "nginx"@.len());
    reveal_strlit("apache");
    assert("systemd"@.len() != "apache"@.len());
    reveal_strlit("httpd");
    assert("systemd"@.len() != "httpd"@.len());
    reveal_strlit("caddy");
    assert("systemd"@.len() != "caddy"@.len());
    reveal_strlit("lighttpd");
    assert("systemd"@.len() != "lighttpd"@.len());
    reveal_strlit("tomcat");
    assert("systemd"@.len() != "tomcat"@.len());
    reveal_strlit("mysql");
    assert("systemd"@.len() != "mysql"@.len());
    reveal_strlit("postgres");
    assert("systemd"@.len() != "postgres"@.len());
    reveal_strlit("redis");
    assert("systemd"@.len() != "redis"@.len());
    reveal_strlit("mongo");
    assert("systemd"@.len() != "mongo"@.len());
    reveal_strlit("mariadb");
    assert("systemd"@[0] != "mariadb"@[0]);
    reveal_strlit("sqlite3");
    assert("systemd"@[1] != "sqlite3"@[1]);
    reveal_strlit("mongod");
    assert("systemd"@.len() != "mongod"@.len());
    reveal_strlit("mysqld");
    assert("systemd"@.len() != "mysqld"@.len());
    reveal_strlit("redis-server");
    assert("systemd"@.len() != "redis-server"@.len());
    reveal_strlit("node");
    assert("systemd"@.len() != "node"@.len());
    reveal_strlit("python");
    assert("systemd"@.len() != "python"@.len());
    reveal_strlit("java");
    assert("systemd"@.len() != "java"@.len());
    reveal_strlit("dotnet");
    assert("systemd"@.len() != "dotnet"@.len());
    reveal_strlit("ruby");
    assert("systemd"@.len() != "ruby"@.len());
    reveal_strlit("go");
    assert("systemd"@.len() != "go"@.len());
    reveal_strlit("cargo");
    assert("systemd"@.len() != "cargo"@.len());
    reveal_strlit("php");
    assert("systemd"@.len() != "php"@.len());
    reveal_strlit("puma");
    assert("systemd"@.len() != "puma"@.len());
    reveal_strlit("uvicorn");
    assert("systemd"@[0] != "uvicorn"@[0]);
    reveal_strlit("gunicorn");
    assert("systemd"@.len() != "gunicorn"@.len());
    reveal_strlit("svchost");
    assert("systemd"@[1] != "svchost"@[1]);
    reveal_strlit("system");
    assert("systemd"@.len() != "system"@.len());
    reveal_strlit("kernel_task");
    assert("systemd"@.len() != "kernel_task"@.len());
    reveal_strlit("launchd");
    assert("systemd"@[0] != "launchd"@[0]);
    assert("systemd"@[3] != seq!['.', 'e', 'x', 'e'][0]);
    assert("systemd"@.subrange(3, 7)[0] == "systemd"@[3]);
    let w = "systemd"@ + ".exe"@;
    assert(w.subrange(w.len() - 4, w.len() as int) =~= seq!['.', 'e', 'x', 'e']);
    assert(w.subrange(0, w.len() - 4) =~= "systemd"@);
}

proof fn lemma_category_row_31()
    ensures
        category_of_name("init"@) == PortCategory::System,
        strip_exe("init"@) == "init"@,
        strip_exe("init"@ + ".exe"@) == "init"@,
{
    reveal_strlit("init");
    reveal_strlit(".exe");
    reveal_strlit("nginx");
    assert("init"@.len() != "nginx"@.len());
    reveal_strlit("apache");
    assert("init"@.len() != "apache"@.len());
    reveal_strlit("httpd");
    assert("init"@.len() != "httpd"@.len());
    reveal_strlit("caddy");
    assert("init"@.len() != "caddy"@.len());
    reveal_strlit("lighttpd");
    assert("init"@.len() != "lighttpd"@.len());
    reveal_strlit("tomcat");
    assert("init"@.len() != "tomcat"@.len());
    reveal_strlit("mysql");
    assert("init"@.len() != "mysql"@.len());
    reveal_strlit("postgres");
    assert("init"@.len() != "postgres"@.len());
    reveal_strlit("redis");
    assert("init"@.len() != "redis"@.len());
    reveal_strlit("mongo");
    assert("init"@.len() != "mongo"@.len());
    reveal_strlit("mariadb");
    assert("init"@.len() != "mariadb"@.len());
    reveal_strlit("sqlite3");
    assert("init"@.len() != "sqlite3"@.len());
    reveal_strlit("mongod");
    assert("init"@.len() != "mongod"@.len());
    reveal_strlit("mysqld");
    assert("init"@.len() != "mysqld"@.len());
    reveal_strlit("redis-server");
    assert("init"@.len() != "redis-server"@.len());
    reveal_strlit("node");
    assert("init"@[0] != "node"@[0]);
    reveal_strlit("python");
    assert("init"@.len() != "python"@.len());
    reveal_strlit("java");
    assert("init"@[0] != "java"@[0]);
    reveal_strlit("dotnet");
    assert("init"@.len() != "dotnet"@.len());
    reveal_strlit("ruby");
    assert("init"@[0] != "ruby"@[0]);
    reveal_strlit("go");
    assert("init"@.len() != "go"@.len());
    reveal_strlit("cargo");
    assert("init"@.len() != "cargo"@.len());
    reveal_strlit("php");
    assert("init"@.len() != "php"@.len());
    reveal_strlit("puma");
    assert("init"@[0] != "puma"@[0]);
    reveal_strlit("uvicorn");
    assert("init"@.len() != "uvicorn"@.len());
    reveal_strlit("gunicorn");
    assert("init"@.len() != "gunicorn"@.len());
    reveal_strlit("svchost");
    assert("init"@.len() != "svchost"@.len());
    reveal_strlit("system");
    assert("init"@.len() != "system"@.len());
    reveal_strlit("kernel_task");
    assert("init"@.len() != "kernel_task"@.len());
    reveal_strlit("launchd");
    assert("init"@.len() != "launchd"@.len());
    reveal_strlit("systemd");
    assert("init"@.len() != "systemd"@.len());
    assert("init"@[0] != seq!['.', 'e', 'x', 'e'][0]);
    assert("init"@.subrange(0, 4)[0] == "init"@[0]);
    let w = "init"@ + ".exe"@;
    assert(w.subrange(w.len() - 4, w.len() as int) =~= seq!['.', 'e', 'x', 'e']);
    assert(w.subrange(0, w.len() - 4) =~= "init"@);
}

proof fn lemma_category_row_32()
    ensures
        category_of_name("kthreadd"@) == PortCategory::System,
        strip_exe("kthreadd"@) == "kthreadd"@,
        strip_exe("kthreadd"@ + ".exe"@) == "kthreadd"@,
{
    reveal_strlit("kthreadd");
    reveal_strlit(".exe");
    reveal_strlit("nginx");
    assert("kthreadd"@.len() != "nginx"@.len());
    reveal_strlit("apache");
    assert("kthreadd"@.len() != "apache"@.len());
    reveal_strlit("httpd");
    assert("kthreadd"@.len() != "httpd"@.len());
    reveal_strlit("caddy");
    assert("kthreadd"@.len() != "caddy"@.len());
    reveal_strlit("lighttpd");
    assert("kthreadd"@[0] != "lighttpd"@[0]);
    reveal_strlit("tomcat");
    assert("kthreadd"@.len() != "tomcat"@.len());
    reveal_strlit("mysql");
    assert("kthreadd"@.len() != "mysql"@.len());
    reveal_strlit("postgres");
    assert("kthreadd"@[0] != "postgres"@[0]);
    reveal_strlit("redis");
    assert("kthreadd"@.len() != "redis"@.len());
    reveal_strlit("mongo");
    assert("kthreadd"@.len() != "mongo"@.len());
    reveal_strlit("mariadb");
    assert("kthreadd"@.len() != "mariadb"@.len());
    reveal_strlit("sqlite3");
    assert("kthreadd"@.len() != "sqlite3"@.len());
    reveal_strlit("mongod");
    assert("kthreadd"@.len() != "mongod"@.len());
    reveal_strlit("mysqld");
    assert("kthreadd"@.len() != "mysqld"@.len());
    reveal_strlit("redis-server");
    assert("kthreadd"@.len() != "redis-server"@.len());
    reveal_strlit("node");
    assert("kthreadd"@.len() != "node"@.len());
    reveal_strlit("python");
    assert("kthreadd"@.len() != "python"@.len());
    reveal_strlit("java");
    assert("kthreadd"@.len() != "java"@.len());
    reveal_strlit("dotnet");
    assert("kthreadd"@.len() != "dotnet"@.len());
    reveal_strlit("ruby");
    assert("kthreadd"@.len() != "ruby"@.len());
    reveal_strlit("go");
    assert("kthreadd"@.len() != "go"@.len());
    reveal_strlit("cargo");
    assert("kthreadd"@.len() != "cargo"@.len());
    reveal_strlit("php");
    assert("kthreadd"@.len() != "php"@.len());
    reveal_strlit("puma");
    assert("kthreadd"@.len() != "puma"@.len());
    reveal_strlit("uvicorn");
    assert("kthreadd"@.len() != "uvicorn"@.len());
    reveal_strlit("gunicorn");
    assert("kthreadd"@[0] != "gunicorn"@[0]);
    reveal_strlit("svchost");
    assert("kthreadd"@.len() != "svchost"@.len());
    reveal_strlit("system");
    assert("kthreadd"@.len() != "system"@.len());
    reveal_strlit("kernel_task");
    assert("kthreadd"@.len() != "kernel_task"@.len());
    reveal_strlit("launchd");
    assert("kthreadd"@.len() != "launchd"@.len());
    reveal_strlit("systemd");
    assert("kthreadd"@.len() != "systemd"@.len());
    reveal_strlit("init");
    assert("kthreadd"@.len() != "init"@.len());
    assert("kthreadd"@[4] != seq!['.', 'e', 'x', 'e'][0]);
    assert("kthreadd"@.subrange(4, 8)[0] == "kthreadd"@[4]);
    let w = "kthreadd"@ + ".exe"@;
    assert(w.subrange(w.len() - 4, w.len() as int) =~= seq!['.', 'e', 'x', 'e']);
    assert(w.subrange(0, w.len() - 4) =~= "kthreadd"@);
}

proof fn lemma_category_row_33()
    ensures
        category_of_name("dwm"@) == PortCategory::System,
        strip_exe("dwm"@) == "dwm"@,
        strip_exe("dwm"@ + ".exe"@) == "dwm"@,
{
    reveal_strlit("dwm");
    reveal_strlit(".exe");
    reveal_strlit("nginx");
    assert("dwm"@.len() != "nginx"@.len());
    reveal_strlit("apache");
    assert("dwm"@.len() != "apache"@.len());
    reveal_strlit("httpd");
    assert("dwm"@.len() != "httpd"@.len());
    reveal_strlit("caddy");
    assert("dwm"@.len() != "caddy"@.len());
    reveal_strlit("lighttpd");
    assert("dwm"@.len() != "lighttpd"@.len());
    reveal_strlit("tomcat");
    assert("dwm"@.len() != "tomcat"@.len());
    reveal_strlit("mysql");
    assert("dwm"@.len() != "mysql"@.len());
    reveal_strlit("postgres");
    assert("dwm"@.len() != "postgres"@.len());
    reveal_strlit("redis");
    assert("dwm"@.len() != "redis"@.len());
    reveal_strlit("mongo");
    assert("dwm"@.len() != "mongo"@.len());
    reveal_strlit("mariadb");
    assert("dwm"@.len() != "mariadb"@.len());
    reveal_strlit("sqlite3");
    assert("dwm"@.len() != "sqlite3"@.len());
    reveal_strlit("mongod");
    assert("dwm"@.len() != "mongod"@.len());
    reveal_strlit("mysqld");
    assert("dwm"@.len() != "mysqld"@.len());
    reveal_strlit("redis-server");
    assert("dwm"@.len() != "redis-server"@.len());
    reveal_strlit("node");
    assert("dwm"@.len() != "node"@.len());
    reveal_strlit("python");
    assert("dwm"@.len() != "python"@.len());
    reveal_strlit("java");
    assert("dwm"@.len() != "java"@.len());
    reveal_strlit("dotnet");
    assert("dwm"@.len() != "dotnet"@.len());
    reveal_strlit("ruby");
    assert("dwm"@.len() != "ruby"@.len());
    reveal_strlit("go");
    assert("dwm"@.len() != "go"@.len());
    reveal_strlit("cargo");
    assert("dwm"@.len() != "cargo"@.len());
    reveal_strlit("php");
    assert("dwm"@[0] != "php"@[0]);
    reveal_strlit("puma");
    assert("dwm"@.len() != "puma"@.len());
    reveal_strlit("uvicorn");
    assert("dwm"@.len() != "uvicorn"@.len());
    reveal_strlit("gunicorn");
    assert("dwm"@.len() != "gunicorn"@.len());
    reveal_strlit("svchost");
    assert("dwm"@.len() != "svchost"@.len());
    reveal_strlit("system");
    assert("dwm"@.len() != "system"@.len());
    reveal_strlit("kernel_task");
    assert("dwm"@.len() != "kernel_task"@.len());
    reveal_strlit("launchd");
    assert("dwm"@.len() != "launchd"@.len());
    reveal_strlit("systemd");
    assert("dwm"@.len() != "systemd"@.len());
    reveal_strlit("init");
    assert("dwm"@.len() != "init"@.len());
    reveal_strlit("kthreadd");
    assert("dwm"@.len() != "kthreadd"@.len());
    let w = "dwm"@ + ".exe"@;
    assert(w.subrange(w.len() - 4, w.len() as int) =~= seq!['.', 'e', 'x', 'e']);
    assert(w.subrange(0, w.len() - 4) =~= "dwm"@);
}

/// Every name of the table, in any ASCII case and with or without a
/// trailing ".exe", is classified as the table says.
pub proof fn law_port_category_table(i: int, name: Seq<char>)
    requires
        0 <= i < category_table().len(),
        ascii_lower(name) == category_table()[i].0 || ascii_lower(name) == category_table()[i].0 + ".exe"@,
    ensures
        category_of_name(strip_exe(ascii_lower(name))) == category_table()[i].1,
{
    let t = category_table();
    if i == 0 {
        lemma_category_row_0();
    }
    if i == 1 {
        lemma_category_row_1();
    }
    if i == 2 {
        lemma_category_row_2();
    }
    if i == 3 {
        lemma_category_row_3();
    }
    if i == 4 {
        lemma_category_row_4();
    }
    if i == 5 {
        lemma_category_row_5();
    }
    if i == 6 {
        lemma_category_row_6();
    }
    if i == 7 {
        lemma_category_row_7();
    }
    if i == 8 {
        lemma_category_row_8();
    }
    if i == 9 {
        lemma_category_row_9();
    }
    if i == 10 {
        lemma_category_row_10();
    }
    if i == 11 {
        lemma_category_row_11();
    }
    if i == 12 {
        lemma_category_row_12();
    }
    if i == 13 {
        lemma_category_row_13();
    }
    if i == 14 {
        lemma_category_row_14();
    }
    if i == 15 {
        lemma_category_row_15();
    }
    if i == 16 {
        lemma_category_row_16();
    }
    if i == 17 {
        lemma_category_row_17();
    }
    if i == 18 {
        lemma_category_row_18();
    }
    if i == 19 {
        lemma_category_row_19();
    }
    if i == 20 {
        lemma_category_row_20();
    }
    if i == 21 {
        lemma_category_row_21();
    }
    if i == 22 {
        lemma_category_row_22();
    }
    if i == 23 {
        lemma_category_row_23();
    }
    if i == 24 {
        lemma_category_row_24();
    }
    if i == 25 {
        lemma_category_row_25();
    }
    if i == 26 {
        lemma_category_row_26();
    }
    if i == 27 {
        lemma_category_row_27();
    }
    if i == 28 {
        lemma_category_row_28();
    }
    if i == 29 {
        lemma_category_row_29();
    }
    if i == 30 {
        lemma_category_row_30();
    }
    if i == 31 {
        lemma_category_row_31();
    }
    if i == 32 {
        lemma_category_row_32();
    }
    if i == 33 {
        lemma_category_row_33();
    }
}

/// A name that the table does not list is classified Other.
pub proof fn law_unlisted_names_are_other(n: Seq<char>)
    requires
        forall|i: int| 0 <= i < category_table().len() ==> n != (#[trigger] category_table()[i]).0,
    ensures
        category_of_name(n) == PortCategory::Other,
{
    let t = category_table();
    assert(t[0].0 == "nginx"@);
    assert(t[1].0 == "apache"@);
    assert(t[2].0 == "httpd"@);
    assert(t[3].0 == "caddy"@);
    assert(t[4].0 == "lighttpd"@);
    assert(t[5].0 == "tomcat"@);
    assert(t[6].0 == "mysql"@);
    assert(t[7].0 == "postgres"@);
    assert(t[8].0 == "redis"@);
    assert(t[9].0 == "mongo"@);
    assert(t[10].0 == "mariadb"@);
    assert(t[11].0 == "sqlite3"@);
    assert(t[12].0 == "mongod"@);
    assert(t[13].0 == "mysqld"@);
    assert(t[14].0 == "redis-server"@);
    assert(t[15].0 == "node"@);
    assert(t[16].0 == "python"@);
    assert(t[17].0 == "java"@);
    assert(t[18].0 == "dotnet"@);
    assert(t[19].0 == "ruby"@);
    assert(t[20].0 == "go"@);
    assert(t[21].0 == "cargo"@);
    assert(t[22].0 == "php"@);
    assert(t[23].0 == "puma"@);
    assert(t[24].0 == "uvicorn"@);
    assert(t[25].0 == "gunicorn"@);
    assert(t[26].0 == "svchost"@);
    assert(t[27].0 == "system"@);
    assert(t[28].0 == "kernel_task"@);
    assert(t[29].0 == "launchd"@);
    assert(t[30].0 == "systemd"@);
    assert(t[31].0 == "init"@);
    assert(t[32].0 == "kthreadd"@);
    assert(t[33].0 == "dwm"@);
}

} // verus!
