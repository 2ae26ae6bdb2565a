//! The fixture corpus: the only feeds the tests ever fetch. Each file pins
//! a specific behavior; [`corpus`] is the catalog and [`readme`] its prose
//! version.
use vstd::prelude::*;
use crate::strs::{eq_chars, str_chars, string_of};

verus! {

/// One fixture file plus the reason it exists.
#[derive(Clone, Copy, Debug)]
pub struct Fixture {
    pub name: &'static str,
    /// What this fixture is for. Rendered into the corpus README.
    pub purpose: &'static str,
    pub body: &'static str,
}

/// A well-formed RSS 2.0 feed. The happy path.
pub const RSS_BASIC: &'static str = r#"<?xml version="1.0" encoding="UTF-8"?>
<rss version="2.0">
  <channel>
    <title>Example RSS Feed</title>
    <link>https://example.com/</link>
    <description>A well-formed RSS 2.0 feed.</description>
    <item>
      <title>First post</title>
      <link>https://example.com/posts/1</link>
      <guid isPermaLink="false">post-0001</guid>
      <description>The first post's summary.</description>
      <pubDate>Tue, 10 Jun 2003 04:00:00 GMT</pubDate>
    </item>
    <item>
      <title>Second post</title>
      <link>https://example.com/posts/2</link>
      <guid isPermaLink="false">post-0002</guid>
      <description>The second post's summary.</description>
      <pubDate>Wed, 11 Jun 2003 09:30:00 -0500</pubDate>
    </item>
    <item>
      <title>Third post, no guid</title>
      <link>https://example.com/posts/3</link>
      <description>Identity falls back to the link.</description>
      <pubDate>Thu, 12 Jun 2003 12:00:00 +0000</pubDate>
    </item>
  </channel>
</rss>
"#;

/// A well-formed Atom feed exercising link selection and date fallback.
pub const ATOM_BASIC: &'static str = r#"<?xml version="1.0" encoding="UTF-8"?>
<feed xmlns="http://www.w3.org/2005/Atom">
  <title>Example Atom Feed</title>
  <link rel="self" href="https://example.com/atom"/>
  <updated>2005-07-31T12:29:29Z</updated>
  <id>urn:uuid:60a76c80-d399-11d9-b91C-0003939e0af6</id>
  <entry>
    <title>Atom entry with an alternate link</title>
    <id>urn:uuid:1225c695-cfb8-4ebb-aaaa-80da344efa6a</id>
    <link rel="self" href="https://example.com/entries/1.atom"/>
    <link rel="alternate" href="https://example.com/entries/1"/>
    <summary>The alternate link wins over the earlier self link.</summary>
    <published>2003-12-13T08:29:29-04:00</published>
    <updated>2005-07-31T12:29:29Z</updated>
  </entry>
  <entry>
    <title>Atom entry falling back to updated and content</title>
    <id>urn:uuid:2225c695-cfb8-4ebb-aaaa-80da344efa6b</id>
    <link href="https://example.com/entries/2"/>
    <content>No summary element, so content becomes the summary.</content>
    <updated>2006-01-02T15:04:05Z</updated>
  </entry>
</feed>
"#;

/// Dates that exercise the RFC 822 zone-name table, plus a missing date and an
/// unparseable one. Both of the latter must store `published_at = null`.
pub const DATES_EDGE: &'static str = r#"<?xml version="1.0" encoding="UTF-8"?>
<rss version="2.0">
  <channel>
    <title>Edge Case Dates</title>
    <link>https://example.com/dates</link>
    <description>Zone names, a missing date, and an unparseable date.</description>
    <item>
      <title>Zone name EST</title>
      <guid>date-est</guid>
      <pubDate>Wed, 01 Jan 2020 12:00:00 EST</pubDate>
    </item>
    <item>
      <title>Zone name PDT</title>
      <guid>date-pdt</guid>
      <pubDate>Wed, 01 Jan 2020 12:00:00 PDT</pubDate>
    </item>
    <item>
      <title>Zone name UT</title>
      <guid>date-ut</guid>
      <pubDate>Wed, 01 Jan 2020 12:00:00 UT</pubDate>
    </item>
    <item>
      <title>Numeric offset</title>
      <guid>date-numeric</guid>
      <pubDate>Wed, 01 Jan 2020 12:00:00 -0500</pubDate>
    </item>
    <item>
      <title>No date at all</title>
      <guid>date-missing</guid>
      <description>published_at must be null, never the fetch time.</description>
    </item>
    <item>
      <title>Unparseable date</title>
      <guid>date-garbage</guid>
      <pubDate>sometime last Tuesday</pubDate>
    </item>
  </channel>
</rss>
"#;

/// CDATA and entity handling. Entities unescape; CDATA is verbatim.
pub const CDATA_ENTITIES: &'static str = r#"<?xml version="1.0" encoding="UTF-8"?>
<rss version="2.0">
  <channel>
    <title>CDATA &amp; Entities</title>
    <link>https://example.com/cdata</link>
    <description>Entity unescaping and CDATA verbatim handling.</description>
    <item>
      <title>Tom &amp; Jerry &lt;the sequel&gt;</title>
      <guid>cdata-entities-1</guid>
      <link>https://example.com/cdata/1</link>
      <description><![CDATA[Verbatim CDATA: &amp; stays literal, <b>markup</b> is not parsed.]]></description>
      <pubDate>Wed, 01 Jan 2020 00:00:00 GMT</pubDate>
    </item>
    <item>
      <title><![CDATA[A CDATA title with <angle> brackets]]></title>
      <guid>cdata-entities-2</guid>
      <description>Entities in text: 5 &lt; 10 &amp;&amp; 10 &gt; 5</description>
      <pubDate>Thu, 02 Jan 2020 00:00:00 GMT</pubDate>
    </item>
    <item>
      <guid>cdata-entities-3</guid>
      <description>This item has no title, so it must store "(untitled)".</description>
      <pubDate>Fri, 03 Jan 2020 00:00:00 GMT</pubDate>
    </item>
  </channel>
</rss>
"#;

/// Malformed XML: `<item>` is closed by `</channel>`. Must produce a parse
/// error recorded to the feed's `last_error`, and must not affect other feeds.
pub const MALFORMED: &'static str = r#"<?xml version="1.0" encoding="UTF-8"?>
<rss version="2.0">
  <channel>
    <title>Malformed
    <link>https://example.com/malformed</link>
    <item>
      <title>This item is never closed
      <guid>broken-1</guid>
  </channel>
</rss>
"#;

/// Truncated XML: a broken upstream cut the response off mid-element, so the
/// document simply stops — no closing tags at all. Distinct from `MALFORMED`,
/// whose fault is a *mismatched* end tag: `check_end_names` catches that one at
/// the bad tag, but a document that just ends reaches EOF with its elements
/// still open. Both must produce a parse error recorded to `last_error`, never
/// a silently successful empty fetch.
pub const TRUNCATED: &'static str = "<?xml version=\"1.0\" encoding=\"UTF-8\"?>\n\
<rss version=\"2.0\"><channel><title>Nightly</title>\n\
<item><guid>n-1</guid><title>Release no";

/// The corpus as (name, purpose, body) texts, in catalog order.
pub open spec fn corpus_spec() -> Seq<(Seq<char>, Seq<char>, Seq<char>)> {
    seq![
        ("rss-basic.rss"@, "A well-formed RSS 2.0 feed. Third item has no guid, so identity falls back to link."@, RSS_BASIC@),
        ("atom-basic.atom"@, "A well-formed Atom feed. Covers rel=alternate link selection, a bare link, summary-vs-content, and published-vs-updated fallback."@, ATOM_BASIC@),
        ("dates-edge.rss"@, "RFC 822 zone names (EST, PDT, UT), a numeric offset, a missing date, and an unparseable date. The last two must store published_at = null."@, DATES_EDGE@),
        ("cdata-entities.rss"@, "Entity unescaping (&amp; -> &), CDATA taken verbatim, and an item with no title (stored as \"(untitled)\")."@, CDATA_ENTITIES@),
        ("malformed.xml"@, "Malformed XML: an unclosed <item>. Must set last_error on its feed and leave other feeds untouched."@, MALFORMED@),
        ("truncated.xml"@, "Truncated XML: the body ends mid-element with nothing closed, as a broken origin would leave it. Must set last_error, not report a successful empty fetch."@, TRUNCATED@),
    ]
}

pub open spec fn fixture_view(f: Fixture) -> (Seq<char>, Seq<char>, Seq<char>) {
    (f.name@, f.purpose@, f.body@)
}

/// The full corpus.
pub fn corpus() -> (r: Vec<Fixture>)
    ensures
        r@.map_values(|f: Fixture| fixture_view(f)) == corpus_spec(),
{
    let mut v: Vec<Fixture> = Vec::new();
    v.push(Fixture { name: "rss-basic.rss", purpose: "A well-formed RSS 2.0 feed. Third item has no guid, so identity falls back to link.", body: RSS_BASIC });
    v.push(Fixture { name: "atom-basic.atom", purpose: "A well-formed Atom feed. Covers rel=alternate link selection, a bare link, summary-vs-content, and published-vs-updated fallback.", body: ATOM_BASIC });
    v.push(Fixture { name: "dates-edge.rss", purpose: "RFC 822 zone names (EST, PDT, UT), a numeric offset, a missing date, and an unparseable date. The last two must store published_at = null.", body: DATES_EDGE });
    v.push(Fixture { name: "cdata-entities.rss", purpose: "Entity unescaping (&amp; -> &), CDATA taken verbatim, and an item with no title (stored as \"(untitled)\").", body: CDATA_ENTITIES });
    v.push(Fixture { name: "malformed.xml", purpose: "Malformed XML: an unclosed <item>. Must set last_error on its feed and leave other feeds untouched.", body: MALFORMED });
    v.push(Fixture { name: "truncated.xml", purpose: "Truncated XML: the body ends mid-element with nothing closed, as a broken origin would leave it. Must set last_error, not report a successful empty fetch.", body: TRUNCATED });
    assert(v@.map_values(|f: Fixture| fixture_view(f)) =~= corpus_spec());
    v
}

/// Look up a fixture by file name.
pub fn get(name: &str) -> (r: Option<Fixture>)
    ensures
        r matches Some(f) ==> f.name@ == name@ && exists|i: int|
            0 <= i < corpus_spec().len() && corpus_spec()[i] == fixture_view(f),
        r is None ==> forall|i: int| 0 <= i < corpus_spec().len() ==> corpus_spec()[i].0 != name@,
{
    let all = corpus();
    let ghost cs = all@.map_values(|f: Fixture| fixture_view(f));
    let want = str_chars(name);
    let mut i: usize = 0;
    while i < all.len()
        invariant
            cs == all@.map_values(|f: Fixture| fixture_view(f)),
            cs == corpus_spec(),
            want@ == name@,
            i <= all@.len(),
            forall|j: int| 0 <= j < i ==> corpus_spec()[j].0 != name@,
        decreases all@.len() - i,
    {
        let f = all[i];
        assert(cs[i as int] == fixture_view(f));
        let have = str_chars(f.name);
        if eq_chars(have.as_slice(), want.as_slice()) {
            return Some(f);
        }
        i = i + 1;
    }
    None
}

pub const README_HEAD: &'static str = "# feedgen fixture corpus\n\n\
         Generated by `feedgen make-fixtures DIR`. Serve it with\n\
         `feedgen serve --dir DIR`.\n\n\
         These files are the only feeds feedhub's tests fetch; nothing here\n\
         touches the real internet. Each file pins a specific behavior.\n\n\
         | file | purpose |\n|---|---|\n";

pub const README_TAIL: &'static str = "\n## Content types\n\n\
         `feedgen serve` picks the `Content-Type` from the file extension:\n\n\
         | extension | content type |\n|---|---|\n\
         | `.rss` | `application/rss+xml; charset=utf-8` |\n\
         | `.atom` | `application/atom+xml; charset=utf-8` |\n\
         | `.xml` | `application/xml; charset=utf-8` |\n\
         | `.md` | `text/markdown; charset=utf-8` |\n\
         | `.txt` | `text/plain; charset=utf-8` |\n\
         | anything else | `application/octet-stream` |\n\n\
         ## Conditional GET\n\n\
         Every response carries a content-derived `ETag` (FNV-1a over the file\n\
         bytes) and a `Last-Modified` taken from the file's mtime. `feedgen`\n\
         answers `304 Not Modified` to a matching `If-None-Match`, or to an\n\
         `If-Modified-Since` at or after the mtime.\n";

/// A purpose with each `|` escaped, so a markdown table survives it.
pub open spec fn escape_pipes(s: Seq<char>) -> Seq<char>
    decreases s.len(),
{
    if s.len() == 0 {
        s
    } else if s.last() == '|' {
        escape_pipes(s.drop_last()) + seq!['\\', '|']
    } else {
        escape_pipes(s.drop_last()).push(s.last())
    }
}

/// The table rows of the README, one per fixture.
pub open spec fn readme_rows(c: Seq<(Seq<char>, Seq<char>, Seq<char>)>) -> Seq<char>
    decreases c.len(),
{
    if c.len() == 0 {
        Seq::empty()
    } else {
        readme_rows(c.drop_last()) + "| `"@ + c.last().0 + "` | "@ + escape_pipes(c.last().1) + " |\n"@
    }
}

/// The README written beside the corpus.
pub open spec fn readme_text() -> Seq<char> {
    README_HEAD@ + readme_rows(corpus_spec()) + README_TAIL@
}

fn push_chars(v: &mut Vec<char>, s: &str)
    ensures
        final(v)@ == old(v)@ + s@,
{
    let w = str_chars(s);
    let mut k: usize = 0;
    while k < w.len()
        invariant
            k <= w@.len(),
            v@ == old(v)@ + w@.take(k as int),
        decreases w@.len() - k,
    {
        v.push(w[k]);
        assert(w@.take(k + 1) =~= w@.take(k as int).push(w@[k as int]));
        k = k + 1;
    }
    assert(w@.take(k as int) =~= w@);
}

fn push_escaped(v: &mut Vec<char>, s: &str)
    ensures
        final(v)@ == old(v)@ + escape_pipes(s@),
{
    let w = str_chars(s);
    let mut k: usize = 0;
    assert(w@.take(0) =~= Seq::<char>::empty());
    while k < w.len()
        invariant
            k <= w@.len(),
            v@ == old(v)@ + escape_pipes(w@.take(k as int)),
        decreases w@.len() - k,
    {
        assert(w@.take(k + 1).drop_last() =~= w@.take(k as int));
        if w[k] == '|' {
            v.push('\\');
            v.push('|');
        } else {
            v.push(w[k]);
        }
        k = k + 1;
    }
    assert(w@.take(k as int) =~= w@);
}

/// The README that documents each fixture.
pub fn readme() -> (r: String)
    ensures
        r@ == readme_text(),
{
    let all = corpus();
    let ghost cs = all@.map_values(|f: Fixture| fixture_view(f));
    let mut out: Vec<char> = Vec::new();
    push_chars(&mut out, README_HEAD);
    let mut i: usize = 0;
    assert(cs.take(0) =~= Seq::<(Seq<char>, Seq<char>, Seq<char>)>::empty());
    while i < all.len()
        invariant
            cs == all@.map_values(|f: Fixture| fixture_view(f)),
            i <= all@.len(),
            out@ == README_HEAD@ + readme_rows(cs.take(i as int)),
        decreases all@.len() - i,
    {
        let f = all[i];
        assert(cs[i as int] == fixture_view(f));
        assert(cs.take(i + 1).drop_last() =~= cs.take(i as int));
        push_chars(&mut out, "| `");
        push_chars(&mut out, f.name);
        push_chars(&mut out, "` | ");
        push_escaped(&mut out, f.purpose);
        push_chars(&mut out, " |\n");
        i = i + 1;
    }
    assert(cs.take(i as int) =~= cs);
    push_chars(&mut out, README_TAIL);
    string_of(out.as_slice())
}

} // verus!
