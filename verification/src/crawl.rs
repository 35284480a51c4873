//! The decisions of the crawler around each page: whether to look at the
//! web-app manifest, what its icon changes, and the command-line options.

use vstd::prelude::*;
use crate::extractor::{opt_view, ExtractedData, ExtractedView, LogoPriority};
use crate::text::{chars_eq, chars_of, string_of};
use crate::utils::{parse_bounded, parse_unsigned_bounded};

verus! {

/// The manifest is worth fetching: the page links one, and no logo was found
/// or only one from a source that a manifest icon beats (a large icon, a
/// square social image or a schema image).
pub open spec fn wants_manifest(d: ExtractedView) -> bool {
    &&& d.manifest_url is Some
    &&& match d.priority {
        None => true,
        Some(p) => p == LogoPriority::LargeIcon || p == LogoPriority::SquareOgImage || p
            == LogoPriority::SchemaImage,
    }
}

/// What the page reports once the manifest's icon (if one was found) is taken
/// as its logo.
pub open spec fn with_manifest_icon(d: ExtractedView, icon: Option<Seq<char>>) -> ExtractedView {
    match icon {
        Some(u) => ExtractedView {
            logo_url: Some(u),
            priority: Some(LogoPriority::ManifestIcon),
            ..d
        },
        None => d,
    }
}

/// Whether the crawler should fetch the page's manifest (see `wants_manifest`).
pub fn should_fetch_manifest(data: &ExtractedData) -> (r: bool)
    ensures
        r == wants_manifest(data@),
{
    if data.manifest_url.is_none() {
        return false;
    }
    match data.priority {
        None => true,
        Some(LogoPriority::LargeIcon) | Some(LogoPriority::SquareOgImage) | Some(
            LogoPriority::SchemaImage,
        ) => true,
        _ => false,
    }
}

/// Takes the manifest's icon, if one was found, as the page's logo.
pub fn apply_manifest_icon(data: &mut ExtractedData, icon: Option<String>)
    ensures
        final(data)@ == with_manifest_icon(old(data)@, opt_view(icon)),
{
    if let Some(url) = icon {
        data.logo_url = Some(url);
        data.priority = Some(LogoPriority::ManifestIcon);
    }
}

/// When the manifest is fetched because `wants_manifest` holds, the icon it
/// gives comes from a strictly better source than the logo it replaces.
pub proof fn lemma_manifest_icon_improves(d: ExtractedView, u: Seq<char>)
    requires
        wants_manifest(d),
    ensures
        with_manifest_icon(d, Some(u)).priority == Some(LogoPriority::ManifestIcon),
        d.priority matches Some(p) ==> LogoPriority::ManifestIcon.rank() < p.rank(),
        with_manifest_icon(d, Some(u)).manifest_url == d.manifest_url,
{
}

/// The options read from the command line.
pub struct CliOptions {
    /// How many pages are crawled at once.
    pub concurrency: usize,
    /// Whether informational log lines are muted.
    pub quiet: bool,
}

/// The concurrency and quietness that the arguments `args[i..]` leave, from
/// `concurrency` and `quiet`: `-c`/`--concurrency` takes the next argument as
/// the concurrency when it reads as a `usize` (and skips it either way);
/// `-q`/`--quiet` mutes; anything else is ignored.
pub open spec fn scan_args(args: Seq<Seq<char>>, i: int, concurrency: nat, quiet: bool) -> (
    nat,
    bool,
)
    decreases args.len() - i,
{
    if i >= args.len() {
        (concurrency, quiet)
    } else {
        let a = args[i];
        if a == "-c"@ || a == "--concurrency"@ {
            if i + 1 < args.len() {
                let c = match parse_bounded(args[i + 1], usize::MAX as nat) {
                    Some(v) => v,
                    None => concurrency,
                };
                scan_args(args, i + 2, c, quiet)
            } else {
                (concurrency, quiet)
            }
        } else if a == "-q"@ || a == "--quiet"@ {
            scan_args(args, i + 1, concurrency, true)
        } else {
            scan_args(args, i + 1, concurrency, quiet)
        }
    }
}

/// The arguments by their characters.
pub open spec fn args_view(args: Seq<String>) -> Seq<Seq<char>> {
    Seq::new(args.len(), |i: int| args[i]@)
}

/// Reads the options from the program's arguments (`args[0]` is the
/// program's name): the concurrency is 50 unless `-c` sets it, and the log is
/// not muted unless `-q` is given.
pub fn parse_cli(args: &Vec<String>) -> (r: CliOptions)
    ensures
        (r.concurrency as nat, r.quiet) == scan_args(args_view(args@), 1, 50, false),
{
    let ghost a = args_view(args@);
    let short_c = chars_of("-c");
    let long_c = chars_of("--concurrency");
    let short_q = chars_of("-q");
    let long_q = chars_of("--quiet");
    let n: usize = args.len();
    let mut concurrency: usize = 50;
    let mut quiet: bool = false;
    let mut i: usize = 1;
    if n == 0 {
        return CliOptions { concurrency, quiet };
    }
    while i < n
        invariant
            n == args@.len(),
            a == args_view(args@),
            short_c@ == "-c"@,
            long_c@ == "--concurrency"@,
            short_q@ == "-q"@,
            long_q@ == "--quiet"@,
            1 <= i <= n,
            scan_args(a, 1, 50, false) == scan_args(a, i as int, concurrency as nat, quiet),
        decreases n - i,
    {
        let arg = chars_of(args[i].as_str());
        assert(a[i as int] == args@[i as int]@);
        if chars_eq(&arg, &short_c) || chars_eq(&arg, &long_c) {
            if i + 1 < n {
                let next = chars_of(args[i + 1].as_str());
                assert(a[i + 1] == args@[i + 1]@);
                if let Some(v) = parse_unsigned_bounded(&next, usize::MAX as u64) {
                    concurrency = v as usize;
                }
                i = i + 2;
            } else {
                i = n;
            }
        } else if chars_eq(&arg, &short_q) || chars_eq(&arg, &long_q) {
            quiet = true;
            i = i + 1;
        } else {
            i = i + 1;
        }
    }
    CliOptions { concurrency, quiet }
}

/// The address of a domain's home page.
pub fn page_url(domain: &str) -> (r: String)
    ensures
        r@ == seq!['h', 't', 't', 'p', 's', ':', '/', '/'] + domain@,
{
    let mut url: Vec<char> = vec!['h', 't', 't', 'p', 's', ':', '/', '/'];
    let mut rest = chars_of(domain);
    url.append(&mut rest);
    string_of(&url)
}

/// How the request for a domain's home page ended.
pub enum PageEvent {
    /// The page could not be fetched at all.
    NetworkError,
    /// The server answered with an unsuccessful status; nothing more is
    /// requested for the domain.
    HttpError,
    /// The page was read and searched.
    Fetched(ExtractedData),
}

/// What one domain adds to the counters, and the logo reported for it: a
/// failure counts as such and reports no logo; a page read reports the logo
/// it found, and counts it when there is one.
pub fn page_outcome(event: PageEvent) -> (r: (Metrics, Option<String>))
    ensures
        r.0.total == 1,
        match event {
            PageEvent::NetworkError => r.0.network_errors == 1 && r.0.http_errors == 0
                && r.0.logos_found == 0 && r.1 is None,
            PageEvent::HttpError => r.0.http_errors == 1 && r.0.network_errors == 0
                && r.0.logos_found == 0 && r.1 is None,
            PageEvent::Fetched(d) => r.0.http_errors == 0 && r.0.network_errors == 0
                && r.0.logos_found == (if d@.logo_url is Some {
                1nat
            } else {
                0nat
            }) && opt_view(r.1) == d@.logo_url,
        },
        r.0.accounted(),
{
    match event {
        PageEvent::NetworkError => (
            Metrics { total: 1, http_errors: 0, network_errors: 1, logos_found: 0 },
            None,
        ),
        PageEvent::HttpError => (
            Metrics { total: 1, http_errors: 1, network_errors: 0, logos_found: 0 },
            None,
        ),
        PageEvent::Fetched(d) => {
            let found: usize = if d.logo_url.is_some() {
                1
            } else {
                0
            };
            (Metrics { total: 1, http_errors: 0, network_errors: 0, logos_found: found }, d.logo_url)
        },
    }
}

/// The crawl's counters, read at the end of a run.
pub struct Metrics {
    /// Pages attempted.
    pub total: usize,
    /// Pages answered with an unsuccessful HTTP status.
    pub http_errors: usize,
    /// Pages that could not be fetched at all.
    pub network_errors: usize,
    /// Pages for which a logo was found.
    pub logos_found: usize,
}

impl Default for Metrics {
    fn default() -> (r: Metrics)
        ensures
            r.total == 0,
            r.http_errors == 0,
            r.network_errors == 0,
            r.logos_found == 0,
    {
        Metrics { total: 0, http_errors: 0, network_errors: 0, logos_found: 0 }
    }
}

impl Metrics {
    /// The failures and the logos found together stay within the attempts.
    pub open spec fn accounted(self) -> bool {
        self.http_errors + self.network_errors + self.logos_found <= self.total
    }

    /// `c` holds, field by field, the sums of the counts of `a` and `b`.
    pub open spec fn is_sum(a: Metrics, b: Metrics, c: Metrics) -> bool {
        &&& c.total == a.total + b.total
        &&& c.http_errors == a.http_errors + b.http_errors
        &&& c.network_errors == a.network_errors + b.network_errors
        &&& c.logos_found == a.logos_found + b.logos_found
    }

    /// The counts of `self` and `other` added field by field.
    pub fn add(&self, other: &Metrics) -> (r: Metrics)
        requires
            self.total + other.total <= usize::MAX,
            self.http_errors + other.http_errors <= usize::MAX,
            self.network_errors + other.network_errors <= usize::MAX,
            self.logos_found + other.logos_found <= usize::MAX,
        ensures
            Metrics::is_sum(*self, *other, r),
    {
        Metrics {
            total: self.total + other.total,
            http_errors: self.http_errors + other.http_errors,
            network_errors: self.network_errors + other.network_errors,
            logos_found: self.logos_found + other.logos_found,
        }
    }

    /// The number of pages reached: the attempts less the failures, or 0 when
    /// the failures outnumber the attempts.
    pub fn reachable(&self) -> (r: usize)
        requires
            self.http_errors + self.network_errors <= usize::MAX,
        ensures
            r == if self.total >= self.http_errors + self.network_errors {
                self.total - self.http_errors - self.network_errors
            } else {
                0
            },
    {
        let failed: usize = self.http_errors + self.network_errors;
        if self.total >= failed {
            self.total - failed
        } else {
            0
        }
    }
}

/// Counters built by adding page outcomes keep the failures plus the logos
/// found at most the total, so the logos found never exceed the reachable
/// pages.
pub proof fn lemma_sum_stays_accounted(a: Metrics, b: Metrics, c: Metrics)
    requires
        a.accounted(),
        b.accounted(),
        Metrics::is_sum(a, b, c),
    ensures
        c.accounted(),
        c.logos_found <= c.total - c.http_errors - c.network_errors,
{
}

} // verus!
