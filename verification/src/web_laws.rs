//! Addresses, programs and the names that entries get from them.

use crate::config::EntryView;
use crate::text::{
    ascii_lowered, begins, find_from, has_text, lemma_find_from, occurs_at, pieces, pieces_from,
    trimmed,
};
use crate::text_laws::{
    law_nothing_to_replace, law_single_occurrence_is_replaced, law_text_up_to_either,
    law_trimming_takes_the_ends, tight,
};
use crate::webapps::{
    before_last, caption_of, choices, decoded, first_present, host_name, link_of, links_from,
    links_of, normal_url, second_piece, stem_of, stripped, url_of, wired, wired_for, ChoiceView,
    FoldersView,
};
use crate::window_laws::law_file_name_ends_the_path;
use vstd::prelude::*;

verus! {

proof fn lemma_before_last(a: Seq<char>, c: char, b: Seq<char>)
    requires
        !b.contains(c),
    ensures
        before_last(a + seq![c] + b, c) == Some(a),
        before_last(b, c) is None,
    decreases b.len(),
{
    let s = a + seq![c] + b;
    if b.len() == 0 {
        assert(s.last() == c);
        assert(s.drop_last() =~= a);
    } else {
        let front = b.drop_last();
        assert(!front.contains(c)) by {
            if front.contains(c) {
                let i = choose|i: int| 0 <= i < front.len() && front[i] == c;
                assert(b[i] == c);
            }
        }
        lemma_before_last(a, c, front);
        assert(s.drop_last() =~= a + seq![c] + front);
        assert(b.contains(b.last())) by {
            assert(b[b.len() - 1] == b.last());
        }
    }
}

/// The stem of a path is the name of its file without what follows the last
/// dot.
pub proof fn law_stem_is_the_bare_name(
    dir: Seq<char>,
    sep: char,
    stem: Seq<char>,
    ext: Seq<char>,
)
    requires
        sep == '\\' || sep == '/',
        !stem.contains('\\'),
        !stem.contains('/'),
        !ext.contains('\\'),
        !ext.contains('/'),
        !ext.contains('.'),
    ensures
        stem_of(dir + seq![sep] + (stem + seq!['.'] + ext)) == stem,
        !stem.contains('.') ==> stem_of(dir + seq![sep] + stem) == stem,
{
    let name = stem + seq!['.'] + ext;
    assert(!name.contains('\\') && !name.contains('/')) by {
        if name.contains('\\') {
            let i = choose|i: int| 0 <= i < name.len() && name[i] == '\\';
            if i < stem.len() {
                assert(stem[i] == '\\');
            } else if i > stem.len() {
                assert(ext[i - stem.len() - 1] == '\\');
            }
        }
        if name.contains('/') {
            let i = choose|i: int| 0 <= i < name.len() && name[i] == '/';
            if i < stem.len() {
                assert(stem[i] == '/');
            } else if i > stem.len() {
                assert(ext[i - stem.len() - 1] == '/');
            }
        }
    }
    law_file_name_ends_the_path(dir, sep, name);
    law_file_name_ends_the_path(dir, sep, stem);
    lemma_before_last(stem, '.', ext);
    if !stem.contains('.') {
        lemma_before_last(stem, '.', stem);
    }
}

/// An address without a scheme gets that of the secure web; any other is taken
/// as it is, trimmed.
pub proof fn law_addresses_get_a_scheme(raw: Seq<char>)
    ensures
        has_text(trimmed(raw), "://"@) ==> normal_url(raw) == trimmed(raw),
        !has_text(trimmed(raw), "://"@) ==> normal_url(raw) == "https://"@ + trimmed(raw),
        has_text(normal_url(raw), "://"@),
{
    if !has_text(trimmed(raw), "://"@) {
        reveal_strlit("https://");
        reveal_strlit("://");
        let s = "https://"@ + trimmed(raw);
        assert(s.subrange(5, 8) =~= "://"@);
        assert(occurs_at(s, "://"@, 5));
    }
}

proof fn lemma_second_piece(a: Seq<char>, pat: Seq<char>, b: Seq<char>)
    requires
        pat.len() > 0,
        forall|i: int| 0 <= i < a.len() ==> !occurs_at(a + pat + b, pat, i),
        forall|i: int| a.len() + pat.len() <= i ==> !occurs_at(a + pat + b, pat, i),
    ensures
        second_piece(a + pat + b, pat) == Some(b),
{
    let s = a + pat + b;
    let (k, n) = (a.len() as int, pat.len() as int);
    assert(s.subrange(k, k + n) =~= pat);
    assert(occurs_at(s, pat, k));
    lemma_find_from(s, pat, 0);
    lemma_find_from(s, pat, k + n);
    assert(s.skip(k + n) =~= b);
    if let Some(j) = find_from(s, pat, 0) {
        if j < k {
            assert(!occurs_at(s, pat, j));
        } else if j > k {
            assert(!occurs_at(s, pat, k));
        }
    }
    assert(find_from(s, pat, 0) == Some(k));
    if let Some(j) = find_from(s, pat, k + n) {
        assert(!occurs_at(s, pat, j));
    }
    assert(find_from(s, pat, k + n) is None);
    assert(pieces_from(s, pat, k + n) == seq![b]);
    assert(pieces(s, pat) == seq![s.subrange(0, k)] + pieces_from(s, pat, k + n));
}

/// The host of an address is what follows the scheme, up to the path, without
/// the leading `www.`.
pub proof fn law_host_is_named(scheme: Seq<char>, host: Seq<char>, rest: Seq<char>)
    requires
        !host.contains('/'),
        !host.contains('?'),
        !begins(host, "www."@),
        ({
            let url = scheme + "://"@ + (host + seq!['/'] + rest);
            &&& forall|i: int| 0 <= i < scheme.len() ==> !occurs_at(url, "://"@, i)
            &&& forall|i: int| scheme.len() + 3 <= i ==> !occurs_at(url, "://"@, i)
        }),
    ensures
        host_name(scheme + "://"@ + (host + seq!['/'] + rest)) == host,
{
    reveal_strlit("://");
    let tail = host + seq!['/'] + rest;
    lemma_second_piece(scheme, "://"@, tail);
    law_text_up_to_either(host, '/', '?', rest);
    assert(stripped(host, "www."@) == host);
}

/// A leading `www.` is left out.
pub proof fn law_www_is_left_out(host: Seq<char>)
    ensures
        stripped("www."@ + host, "www."@) == stripped(host, "www."@),
        !begins(host, "www."@) ==> stripped("www."@ + host, "www."@) == host,
{
    reveal_strlit("www.");
    let p = "www."@;
    let s = p + host;
    assert(s.subrange(0, 4) =~= p);
    assert(begins(s, p));
    assert(s.skip(4) =~= host);
}

// ----------------------------------------------------------------- browsers

proof fn lemma_first_present(paths: Seq<Seq<char>>, present: Seq<Seq<char>>, i: int)
    requires
        0 <= i,
    ensures
        match first_present(paths, present, i) {
            Some(p) => exists|k: int|
                i <= k < paths.len() && #[trigger] paths[k] == p && present.contains(p)
                    && forall|j: int| i <= j < k ==> !present.contains(#[trigger] paths[j]),
            None => forall|k: int| i <= k < paths.len() ==> !present.contains(#[trigger] paths[k]),
        },
    decreases paths.len() - i,
{
    if i < paths.len() {
        if present.contains(paths[i]) {
            assert(paths[i] == first_present(paths, present, i)->0);
        } else {
            lemma_first_present(paths, present, i + 1);
        }
    }
}

/// A browser is used from the first of its places where it is present.
pub proof fn law_browser_is_found_where_it_is(paths: Seq<Seq<char>>, present: Seq<Seq<char>>, k: int)
    requires
        0 <= k < paths.len(),
        present.contains(paths[k]),
        forall|j: int| 0 <= j < k ==> !present.contains(#[trigger] paths[j]),
    ensures
        first_present(paths, present, 0) == Some(paths[k]),
{
    lemma_first_present(paths, present, 0);
    let p = first_present(paths, present, 0)->0;
    let m = choose|m: int|
        0 <= m < paths.len() && #[trigger] paths[m] == p && present.contains(p) && forall|j: int|
            0 <= j < m ==> !present.contains(#[trigger] paths[j]);
    if m < k {
        assert(!present.contains(paths[m]));
    } else if k < m {
        assert(!present.contains(paths[k]));
    }
}

/// The last choice is always the default browser; an entry for it has the
/// address itself as its command.
pub proof fn law_default_browser_is_last(f: FoldersView, url: Seq<char>, present: Seq<Seq<char>>)
    ensures
        ({
            let cs = choices(f, url, present);
            &&& cs.len() >= 1
            &&& cs.last().exe.len() == 0
            &&& wired(cs.last(), url) == (url, ""@)
            &&& wired_for(cs.last(), url) == (url, ""@)
        }),
{
    reveal_strlit("");
}

/// An entry for any other browser runs that browser.
pub proof fn law_chosen_browser_is_run(c: ChoiceView, url: Seq<char>)
    requires
        c.exe.len() > 0,
    ensures
        wired(c, url) == (c.exe, c.args),
        wired_for(c, url).0 == c.exe,
{
}

/// An entry whose command is an address of the web opens that address.
pub proof fn law_web_command_is_its_address(e: EntryView)
    requires
        begins(e.command, "http://"@) || begins(e.command, "https://"@),
    ensures
        url_of(e) == Some(e.command),
{
}

// ---------------------------------------------------------------- bookmarks

proof fn lemma_no_mark(s: Seq<char>, pat: Seq<char>)
    requires
        !s.contains('&'),
        pat.len() > 0,
        pat[0] == '&',
    ensures
        forall|i: int| !occurs_at(s, pat, i),
{
    assert forall|i: int| !occurs_at(s, pat, i) by {
        if occurs_at(s, pat, i) {
            assert(s.subrange(i, i + pat.len())[0] == s[i]);
        }
    }
}

/// The first character of `pat` stands in `a + e + b` only where `e` begins.
proof fn lemma_one_mark(a: Seq<char>, e: Seq<char>, b: Seq<char>, pat: Seq<char>)
    requires
        !a.contains('&'),
        !b.contains('&'),
        e.len() > 0,
        e[0] == '&',
        !e.drop_first().contains('&'),
        pat.len() > 0,
        pat[0] == '&',
    ensures
        forall|i: int| i != a.len() ==> !#[trigger] occurs_at(a + e + b, pat, i),
        occurs_at(a + e + b, pat, a.len() as int) ==> forall|j: int|
            0 <= j < pat.len() ==> #[trigger] pat[j] == (e + b)[j],
{
    let s = a + e + b;
    assert forall|i: int| i != a.len() implies !#[trigger] occurs_at(s, pat, i) by {
        if occurs_at(s, pat, i) {
            assert(s.subrange(i, i + pat.len())[0] == s[i]);
            if i < a.len() {
                assert(a[i] == '&');
            } else if i < a.len() + e.len() {
                assert(e.drop_first()[i - a.len() - 1] == '&');
            } else {
                assert(b[i - a.len() - e.len()] == '&');
            }
        }
    }
    if occurs_at(s, pat, a.len() as int) {
        assert forall|j: int| 0 <= j < pat.len() implies #[trigger] pat[j] == (e + b)[j] by {
            let k = a.len() as int;
            assert(s.subrange(k, k + pat.len())[j] == s[k + j]);
            assert(s[k + j] == (e + b)[j]);
        }
    }
}

proof fn lemma_unmarked(s: Seq<char>)
    requires
        !s.contains('&'),
    ensures
        decoded(s) == s,
{
    reveal_strlit("&amp;");
    reveal_strlit("&lt;");
    reveal_strlit("&gt;");
    reveal_strlit("&quot;");
    reveal_strlit("&#39;");
    lemma_no_mark(s, "&amp;"@);
    lemma_no_mark(s, "&lt;"@);
    lemma_no_mark(s, "&gt;"@);
    lemma_no_mark(s, "&quot;"@);
    lemma_no_mark(s, "&#39;"@);
    law_nothing_to_replace(s, "&amp;"@, "&"@);
    law_nothing_to_replace(s, "&lt;"@, "<"@);
    law_nothing_to_replace(s, "&gt;"@, ">"@);
    law_nothing_to_replace(s, "&quot;"@, "\""@);
    law_nothing_to_replace(s, "&#39;"@, "'"@);
}

proof fn lemma_resolved(a: Seq<char>, e: Seq<char>, b: Seq<char>, to: Seq<char>)
    requires
        !a.contains('&'),
        !b.contains('&'),
        ({
            ||| e == "&lt;"@ && to == "<"@
            ||| e == "&gt;"@ && to == ">"@
            ||| e == "&quot;"@ && to == "\""@
            ||| e == "&#39;"@ && to == "'"@
        }),
    ensures
        decoded(a + e + b) == a + to + b,
{
    reveal_strlit("&amp;");
    reveal_strlit("&lt;");
    reveal_strlit("&gt;");
    reveal_strlit("&quot;");
    reveal_strlit("&#39;");
    reveal_strlit("<");
    reveal_strlit(">");
    reveal_strlit("\"");
    reveal_strlit("'");
    let s = a + e + b;
    let t = a + to + b;
    lemma_one_mark(a, e, b, "&amp;"@);
    lemma_one_mark(a, e, b, "&lt;"@);
    lemma_one_mark(a, e, b, "&gt;"@);
    lemma_one_mark(a, e, b, "&quot;"@);
    lemma_one_mark(a, e, b, "&#39;"@);
    assert((e + b)[1] == e[1]);
    assert("&amp;"@[1] == 'a' && "&lt;"@[1] == 'l' && "&gt;"@[1] == 'g' && "&quot;"@[1] == 'q'
        && "&#39;"@[1] == '#');
    law_nothing_to_replace(s, "&amp;"@, "&"@);
    assert(!t.contains('&')) by {
        if t.contains('&') {
            let i = choose|i: int| 0 <= i < t.len() && t[i] == '&';
            if i < a.len() {
                assert(a[i] == '&');
            } else if i > a.len() {
                assert(b[i - a.len() - 1] == '&');
            }
        }
    }
    lemma_no_mark(t, "&lt;"@);
    lemma_no_mark(t, "&gt;"@);
    lemma_no_mark(t, "&quot;"@);
    lemma_no_mark(t, "&#39;"@);
    law_nothing_to_replace(t, "&gt;"@, ">"@);
    law_nothing_to_replace(t, "&quot;"@, "\""@);
    law_nothing_to_replace(t, "&#39;"@, "'"@);
    if e == "&lt;"@ {
        law_single_occurrence_is_replaced(a, e, b, to);
    } else {
        law_nothing_to_replace(s, "&lt;"@, "<"@);
        if e == "&gt;"@ {
            law_single_occurrence_is_replaced(a, e, b, to);
        } else {
            law_nothing_to_replace(s, "&gt;"@, ">"@);
            if e == "&quot;"@ {
                law_single_occurrence_is_replaced(a, e, b, to);
            } else {
                law_nothing_to_replace(s, "&quot;"@, "\""@);
                law_single_occurrence_is_replaced(a, e, b, to);
            }
        }
    }
}

/// Each of the common entities stands for its character; a text without any is
/// what it is.
pub proof fn law_entities_are_resolved(a: Seq<char>, b: Seq<char>)
    requires
        !a.contains('&'),
        !b.contains('&'),
    ensures
        decoded(a) == a,
        decoded(a + "&lt;"@ + b) == a + "<"@ + b,
        decoded(a + "&gt;"@ + b) == a + ">"@ + b,
        decoded(a + "&quot;"@ + b) == a + "\""@ + b,
        decoded(a + "&#39;"@ + b) == a + "'"@ + b,
{
    lemma_unmarked(a);
    lemma_resolved(a, "&lt;"@, b, "<"@);
    lemma_resolved(a, "&gt;"@, b, ">"@);
    lemma_resolved(a, "&quot;"@, b, "\""@);
    lemma_resolved(a, "&#39;"@, b, "'"@);
}

/// An ampersand is written as an entity too; what follows it here cannot end
/// one.
pub proof fn law_ampersand_is_resolved(a: Seq<char>, b: Seq<char>)
    requires
        !a.contains('&'),
        !b.contains('&'),
        !b.contains(';'),
    ensures
        decoded(a + "&amp;"@ + b) == a + "&"@ + b,
{
    reveal_strlit("&amp;");
    reveal_strlit("&");
    reveal_strlit("&lt;");
    reveal_strlit("&gt;");
    reveal_strlit("&quot;");
    reveal_strlit("&#39;");
    let t = a + "&"@ + b;
    lemma_one_mark(a, "&amp;"@, b, "&amp;"@);
    law_single_occurrence_is_replaced(a, "&amp;"@, b, "&"@);
    lemma_one_mark(a, "&"@, b, "&lt;"@);
    lemma_one_mark(a, "&"@, b, "&gt;"@);
    lemma_one_mark(a, "&"@, b, "&quot;"@);
    lemma_one_mark(a, "&"@, b, "&#39;"@);
    lemma_not_ended(a, b, "&lt;"@);
    lemma_not_ended(a, b, "&gt;"@);
    lemma_not_ended(a, b, "&quot;"@);
    lemma_not_ended(a, b, "&#39;"@);
    law_nothing_to_replace(t, "&lt;"@, "<"@);
    law_nothing_to_replace(t, "&gt;"@, ">"@);
    law_nothing_to_replace(t, "&quot;"@, "\""@);
    law_nothing_to_replace(t, "&#39;"@, "'"@);
}

proof fn lemma_not_ended(a: Seq<char>, b: Seq<char>, pat: Seq<char>)
    requires
        !b.contains(';'),
        pat.len() > 1,
        pat.last() == ';',
    ensures
        !occurs_at(a + "&"@ + b, pat, a.len() as int),
{
    reveal_strlit("&");
    let s = a + "&"@ + b;
    let k = a.len() as int;
    if occurs_at(s, pat, k) {
        let j = pat.len() - 1;
        assert(s.subrange(k, k + pat.len())[j] == s[k + j]);
        assert(b[j - 1] == ';');
    }
}

/// A plain place of a pattern is where it is found, if its first character does
/// not stand before.
proof fn lemma_found_at(s: Seq<char>, pat: Seq<char>, i: int, k: int)
    requires
        0 <= i <= k,
        pat.len() > 0,
        occurs_at(s, pat, k),
        forall|j: int| i <= j < k ==> #[trigger] s[j] != pat[0],
    ensures
        find_from(s, pat, i) == Some(k),
{
    lemma_find_from(s, pat, i);
    if let Some(m) = find_from(s, pat, i) {
        assert(s.subrange(m, m + pat.len())[0] == s[m]);
    }
}

/// The first link of a file of bookmarks is found, with its address and its
/// caption.
#[verifier::rlimit(30)]
pub proof fn law_bookmark_is_found(
    before: Seq<char>,
    url: Seq<char>,
    title: Seq<char>,
    after: Seq<char>,
)
    requires
        !before.contains('<'),
        begins(url, "http"@),
        !url.contains('"') && !url.contains('>') && !url.contains('&'),
        title.len() > 0 && tight(title),
        !title.contains('<') && !title.contains('&'),
    ensures
        ({
            let r = links_of(
                before + "<a href=\""@ + url + "\">"@ + title + "</a>"@ + after,
            );
            r.len() > 0 && r[0] == (title, url)
        }),
{
    reveal_strlit("<a href=\"");
    reveal_strlit("\">");
    reveal_strlit("</a>");
    reveal_strlit("<a ");
    reveal_strlit(">");
    reveal_strlit("href=\"");
    reveal_strlit("\"");
    let text = before + "<a href=\""@ + url + "\">"@ + title + "</a>"@ + after;
    let low = ascii_lowered(text);
    let start = before.len() as int;
    let close = start + 9 + url.len();
    let end = close + 1;
    let tail = end + 1 + title.len();
    assert forall|j: int| 0 <= j < start implies #[trigger] low[j] != '<' by {
        assert(text[j] == before[j]);
    }
    assert(low.subrange(start, start + 3) =~= "<a "@);
    lemma_found_at(low, "<a "@, 0, start);
    assert forall|j: int| start <= j < end implies #[trigger] low[j] != '>' by {
        if start + 9 <= j < close {
            assert(text[j] == url[j - start - 9]);
        } else if j < start + 9 {
            assert(text[j] == "<a href=\""@[j - start]);
        }
    }
    assert(low.subrange(end, end + 1) =~= ">"@);
    lemma_found_at(low, ">"@, start, end);
    let lead = low.take(end);
    assert(lead.subrange(start + 3, start + 9) =~= "href=\""@);
    lemma_found_at(lead, "href=\""@, start, start + 3);
    let mine = text.take(end);
    assert forall|j: int| start + 9 <= j < close implies #[trigger] mine[j] != '"' by {
        assert(text[j] == url[j - start - 9]);
    }
    assert(mine.subrange(close, close + 1) =~= "\""@);
    lemma_found_at(mine, "\""@, start + 9, close);
    assert(text.subrange(start + 9, close) =~= url);
    lemma_unmarked(url);
    assert(link_of(text, start, end) == Some(url));
    assert forall|j: int| end + 1 <= j < tail implies #[trigger] low[j] != '<' by {
        assert(text[j] == title[j - end - 1]);
    }
    assert(low.subrange(tail, tail + 4) =~= "</a>"@);
    lemma_found_at(low, "</a>"@, end + 1, tail);
    assert(text.subrange(end + 1, tail) =~= title);
    let none = Seq::<char>::empty();
    law_trimming_takes_the_ends(none, title, none);
    assert(none + title + none =~= title);
    lemma_unmarked(title);
    assert(caption_of(text, end + 1) == Some(title));
    assert(links_of(text) == seq![(title, url)] + links_from(text, end + 1));
}

} // verus!
