//! Built-in domain lists.

use vstd::prelude::*;

verus! {

/// Owned copies of a list of names, in order.
fn owned_names(names: &[&str]) -> (r: Vec<String>)
    ensures
        r@.len() == names@.len(),
        forall|i: int| 0 <= i < names@.len() ==> (#[trigger] r@[i])@ == names@[i]@,
{
    let mut out: Vec<String> = Vec::new();
    let mut i: usize = 0;
    while i < names.len()
        invariant
            i <= names@.len(),
            out@.len() == i,
            forall|k: int| 0 <= k < i ==> (#[trigger] out@[k])@ == names@[k]@,
        decreases names@.len() - i,
    {
        out.push(names[i].to_owned());
        i += 1;
    }
    out
}

/// The popular names that most resolvers hold in cache.
pub open spec fn warm_domain_names() -> Seq<Seq<char>> {
    seq![
        "google.com"@,
        "youtube.com"@,
        "facebook.com"@,
        "amazon.com"@,
        "wikipedia.org"@,
        "twitter.com"@,
        "reddit.com"@,
        "netflix.com"@,
        "microsoft.com"@,
        "apple.com"@,
    ]
}

/// Return a list of popular domains likely to be cached by DNS resolvers.
pub fn default_warm_domains() -> (r: Vec<String>)
    ensures
        r.deep_view() == warm_domain_names(),
{
    let names = [
        "google.com",
        "youtube.com",
        "facebook.com",
        "amazon.com",
        "wikipedia.org",
        "twitter.com",
        "reddit.com",
        "netflix.com",
        "microsoft.com",
        "apple.com",
    ];
    let r = owned_names(&names);
    assert(r.deep_view() =~= warm_domain_names());
    r
}

/// Real, resolvable names that a resolver is unlikely to hold in cache.
pub open spec fn cold_domain_names() -> Seq<Seq<char>> {
    seq![
        "archives.gov"@,
        "usgs.gov"@,
        "noaa.gov"@,
        "energy.gov"@,
        "census.gov"@,
        "si.edu"@,
        "caltech.edu"@,
        "mit.edu"@,
        "stanford.edu"@,
        "cornell.edu"@,
        "cern.ch"@,
        "csiro.au"@,
        "keio.ac.jp"@,
        "ethz.ch"@,
        "mpg.de"@,
        "cnrs.fr"@,
        "nrc.ca"@,
        "anu.edu.au"@,
        "cam.ac.uk"@,
        "tudelft.nl"@,
        "ibge.gov.br"@,
        "kb.se"@,
        "onb.ac.at"@,
        "nationaalarchief.nl"@,
        "riksarkivet.no"@,
        "arkisto.fi"@,
        "nla.gov.au"@,
        "ndl.go.jp"@,
        "snu.ac.kr"@,
        "natlib.govt.nz"@,
        "pkg.dev"@,
        "fonts.google.com"@,
        "crates.io"@,
        "httpbin.org"@,
        "lobste.rs"@,
        "arxiv.org"@,
        "jstor.org"@,
        "archive.org"@,
        "gutenberg.org"@,
        "openlibrary.org"@,
        "rtve.es"@,
        "yle.fi"@,
        "dr.dk"@,
        "nrk.no"@,
        "svt.se"@,
        "rtp.pt"@,
        "rte.ie"@,
        "srf.ch"@,
        "orf.at"@,
        "vrt.be"@,
    ]
}

/// Return a list of real domains unlikely to be cached by resolvers.
///
/// They trigger actual uncached resolution rather than negative caching.
pub fn default_cold_domains() -> (r: Vec<String>)
    ensures
        r.deep_view() == cold_domain_names(),
{
    let names = [
        "archives.gov",
        "usgs.gov",
        "noaa.gov",
        "energy.gov",
        "census.gov",
        "si.edu",
        "caltech.edu",
        "mit.edu",
        "stanford.edu",
        "cornell.edu",
        "cern.ch",
        "csiro.au",
        "keio.ac.jp",
        "ethz.ch",
        "mpg.de",
        "cnrs.fr",
        "nrc.ca",
        "anu.edu.au",
        "cam.ac.uk",
        "tudelft.nl",
        "ibge.gov.br",
        "kb.se",
        "onb.ac.at",
        "nationaalarchief.nl",
        "riksarkivet.no",
        "arkisto.fi",
        "nla.gov.au",
        "ndl.go.jp",
        "snu.ac.kr",
        "natlib.govt.nz",
        "pkg.dev",
        "fonts.google.com",
        "crates.io",
        "httpbin.org",
        "lobste.rs",
        "arxiv.org",
        "jstor.org",
        "archive.org",
        "gutenberg.org",
        "openlibrary.org",
        "rtve.es",
        "yle.fi",
        "dr.dk",
        "nrk.no",
        "svt.se",
        "rtp.pt",
        "rte.ie",
        "srf.ch",
        "orf.at",
        "vrt.be",
    ];
    let r = owned_names(&names);
    assert(r.deep_view() =~= cold_domain_names());
    r
}

/// Names under the reserved `.invalid` top-level domain, which never resolve.
pub open spec fn nxdomain_domain_names() -> Seq<Seq<char>> {
    seq![
        "nxdomain-test-0001.invalid"@,
        "nxdomain-test-0002.invalid"@,
        "nxdomain-test-0003.invalid"@,
        "thisdomaindoesnotexist-benchmark-check.invalid"@,
        "dns-benchmark-nxdomain-probe.invalid"@,
        "nxdomain-canary-test.invalid"@,
        "resolver-honesty-check.invalid"@,
        "definitely-not-a-real-domain.invalid"@,
        "benchmark-interception-test.invalid"@,
        "nxdomain-validation-probe.invalid"@,
    ]
}

/// Return a list of domains guaranteed not to exist.
///
/// Used for NXDOMAIN interception detection.
pub fn default_nxdomain_domains() -> (r: Vec<String>)
    ensures
        r.deep_view() == nxdomain_domain_names(),
{
    let names = [
        "nxdomain-test-0001.invalid",
        "nxdomain-test-0002.invalid",
        "nxdomain-test-0003.invalid",
        "thisdomaindoesnotexist-benchmark-check.invalid",
        "dns-benchmark-nxdomain-probe.invalid",
        "nxdomain-canary-test.invalid",
        "resolver-honesty-check.invalid",
        "definitely-not-a-real-domain.invalid",
        "benchmark-interception-test.invalid",
        "nxdomain-validation-probe.invalid",
    ];
    let r = owned_names(&names);
    assert(r.deep_view() =~= nxdomain_domain_names());
    r
}

/// Real names spread over many top-level domains.
pub open spec fn tld_domain_names() -> Seq<Seq<char>> {
    seq![
        "icann.org"@,
        "iana.org"@,
        "ietf.org"@,
        "example.net"@,
        "verisign.com"@,
        "pkg.dev"@,
        "web.app"@,
        "dart.dev"@,
        "nist.gov"@,
        "loc.gov"@,
        "mit.edu"@,
        "ox.ac.uk"@,
        "tu-berlin.de"@,
        "inria.fr"@,
        "uva.nl"@,
        "kth.se"@,
        "lu.ch"@,
        "tuwien.at"@,
        "kuleuven.be"@,
        "tcd.ie"@,
        "ulisboa.pt"@,
        "uio.no"@,
        "oulu.fi"@,
        "ku.dk"@,
        "keio.ac.jp"@,
        "snu.ac.kr"@,
        "iitb.ac.in"@,
        "uq.edu.au"@,
        "auckland.ac.nz"@,
        "ubc.ca"@,
        "unam.mx"@,
        "usp.br"@,
        "uct.ac.za"@,
    ]
}

/// Return a list of domains spanning many different TLDs.
pub fn default_tld_domains() -> (r: Vec<String>)
    ensures
        r.deep_view() == tld_domain_names(),
{
    let names = [
        "icann.org",
        "iana.org",
        "ietf.org",
        "example.net",
        "verisign.com",
        "pkg.dev",
        "web.app",
        "dart.dev",
        "nist.gov",
        "loc.gov",
        "mit.edu",
        "ox.ac.uk",
        "tu-berlin.de",
        "inria.fr",
        "uva.nl",
        "kth.se",
        "lu.ch",
        "tuwien.at",
        "kuleuven.be",
        "tcd.ie",
        "ulisboa.pt",
        "uio.no",
        "oulu.fi",
        "ku.dk",
        "keio.ac.jp",
        "snu.ac.kr",
        "iitb.ac.in",
        "uq.edu.au",
        "auckland.ac.nz",
        "ubc.ca",
        "unam.mx",
        "usp.br",
        "uct.ac.za",
    ];
    let r = owned_names(&names);
    assert(r.deep_view() =~= tld_domain_names());
    r
}

} // verus!
