//! What holds of repeated synchronisation of a hosts text: running it again
//! changes nothing, running it with no domains gives back what was there
//! before the fence, text that follows a fence is kept apart from the text
//! before it, each marker stands once only, and cutting a marked section out,
//! wherever it stands, keeps what surrounds it and leaves no marker.

use crate::hosts::{
    block, entries, entry, fence_bounds, joint, line, marker_end, marker_start, section_bounds,
    synced, without_fence,
};
use crate::text::{contains, first_occurrence, lemma_first_occurrence_is, lemma_first_occurrence_none, occurs_at};
use vstd::prelude::*;

verus! {

/// None of the first `n` characters of `s` is `c`.
spec fn free_of(s: Seq<char>, c: char, n: nat) -> bool
    decreases n,
{
    n == 0 || (s[n - 1] != c && free_of(s, c, (n - 1) as nat))
}

proof fn lemma_free_of(s: Seq<char>, c: char, n: nat)
    requires
        free_of(s, c, n),
    ensures
        forall|k: int| 0 <= k < n ==> s[k] != c,
    decreases n,
{
    if n > 0 {
        lemma_free_of(s, c, (n - 1) as nat);
    }
}

/// No domain of `domains` holds `marker`.
pub open spec fn free_of_marker(domains: Seq<Seq<char>>, marker: Seq<char>) -> bool {
    forall|k: int| 0 <= k < domains.len() ==> !contains(#[trigger] domains[k], marker)
}

/// No domain of `domains` holds the end marker.
pub open spec fn free_of_end_marker(domains: Seq<Seq<char>>) -> bool {
    free_of_marker(domains, marker_end())
}

/// No domain of `domains` holds the start marker.
pub open spec fn free_of_start_marker(domains: Seq<Seq<char>>) -> bool {
    free_of_marker(domains, marker_start())
}

/// What the proofs use of a marker: it begins with `#`, holds no other `#`,
/// and holds no newline.
spec fn is_marker(marker: Seq<char>) -> bool {
    &&& marker.len() > 0
    &&& marker[0] == '#'
    &&& forall|k: int| 1 <= k < marker.len() ==> marker[k] != '#'
    &&& forall|k: int| 0 <= k < marker.len() ==> marker[k] != '\n'
}

proof fn lemma_markers()
    ensures
        is_marker(marker_start()),
        is_marker(marker_end()),
        marker_start().len() == marker_end().len() + 2,
        marker_end().len() > 20,
        marker_start()[20] != marker_end()[20],
{
    reveal_strlit("# === BASTION BLOCK START ===");
    reveal_strlit("# === BASTION BLOCK END ===");
    let start = marker_start();
    let end = marker_end();
    assert(free_of(start, '\n', start.len())) by {
        reveal_with_fuel(free_of, 32);
    }
    assert(free_of(end, '\n', end.len())) by {
        reveal_with_fuel(free_of, 32);
    }
    assert(free_of(start.drop_first(), '#', (start.len() - 1) as nat)) by {
        reveal_with_fuel(free_of, 32);
    }
    assert(free_of(end.drop_first(), '#', (end.len() - 1) as nat)) by {
        reveal_with_fuel(free_of, 32);
    }
    lemma_free_of(start, '\n', start.len());
    lemma_free_of(end, '\n', end.len());
    lemma_free_of(start.drop_first(), '#', (start.len() - 1) as nat);
    lemma_free_of(end.drop_first(), '#', (end.len() - 1) as nat);
    assert forall|k: int| 1 <= k < start.len() implies start[k] != '#' by {
        assert(start.drop_first()[k - 1] == start[k]);
    }
    assert forall|k: int| 1 <= k < end.len() implies end[k] != '#' by {
        assert(end.drop_first()[k - 1] == end[k]);
    }
}

proof fn lemma_prefixes()
    ensures
        forall|k: int| 0 <= k < "127.0.0.1 "@.len() ==> "127.0.0.1 "@[k] != '#',
        forall|k: int| 0 <= k < "127.0.0.1 www."@.len() ==> "127.0.0.1 www."@[k] != '#',
        forall|k: int| 0 <= k < "::1 "@.len() ==> "::1 "@[k] != '#',
        forall|k: int| 0 <= k < "::1 www."@.len() ==> "::1 www."@[k] != '#',
        "\n"@.len() == 1,
        "\n"@[0] == '\n',
        "\n\n"@.len() == 2,
        "\n\n"@[0] == '\n',
        "\n\n"@[1] == '\n',
{
    reveal_strlit("127.0.0.1 ");
    reveal_strlit("127.0.0.1 www.");
    reveal_strlit("::1 ");
    reveal_strlit("::1 www.");
    reveal_strlit("\n");
    reveal_strlit("\n\n");
    assert(free_of("127.0.0.1 "@, '#', "127.0.0.1 "@.len())) by {
        reveal_with_fuel(free_of, 16);
    }
    assert(free_of("127.0.0.1 www."@, '#', "127.0.0.1 www."@.len())) by {
        reveal_with_fuel(free_of, 16);
    }
    assert(free_of("::1 "@, '#', "::1 "@.len())) by {
        reveal_with_fuel(free_of, 16);
    }
    assert(free_of("::1 www."@, '#', "::1 www."@.len())) by {
        reveal_with_fuel(free_of, 16);
    }
    lemma_free_of("127.0.0.1 "@, '#', "127.0.0.1 "@.len());
    lemma_free_of("127.0.0.1 www."@, '#', "127.0.0.1 www."@.len());
    lemma_free_of("::1 "@, '#', "::1 "@.len());
    lemma_free_of("::1 www."@, '#', "::1 www."@.len());
}

/// Where `a + b` stands at `at`, `a` stands at `at` and `b` right after it.
proof fn lemma_split(text: Seq<char>, a: Seq<char>, b: Seq<char>, at: int)
    requires
        occurs_at(text, a + b, at),
    ensures
        occurs_at(text, a, at),
        occurs_at(text, b, at + a.len()),
{
    let whole = text.subrange(at, at + (a + b).len());
    assert forall|k: int| 0 <= k < a.len() implies text.subrange(at, at + a.len())[k] == a[k] by {
        assert(whole[k] == (a + b)[k]);
    }
    assert(text.subrange(at, at + a.len()) =~= a);
    assert forall|k: int| 0 <= k < b.len() implies text.subrange(
        at + a.len(),
        at + a.len() + b.len(),
    )[k] == b[k] by {
        assert(whole[a.len() + k] == (a + b)[a.len() + k]);
    }
    assert(text.subrange(at + a.len(), at + a.len() + b.len()) =~= b);
}

/// A needle without newline cannot stand across a newline.
proof fn lemma_not_across_newline(text: Seq<char>, needle: Seq<char>, i: int, k: int)
    requires
        occurs_at(text, needle, i),
        forall|j: int| 0 <= j < needle.len() ==> needle[j] != '\n',
        0 <= k < text.len(),
        text[k] == '\n',
    ensures
        k < i || i + needle.len() <= k,
{
    if i <= k && k < i + needle.len() {
        assert(text.subrange(i, i + needle.len())[k - i] == text[k]);
    }
}

/// A marker starts nowhere inside a redirect line whose domain does not hold
/// it.
proof fn lemma_line_free(
    text: Seq<char>,
    marker: Seq<char>,
    prefix: Seq<char>,
    domain: Seq<char>,
    at: int,
    i: int,
)
    requires
        is_marker(marker),
        occurs_at(text, line(prefix, domain), at),
        forall|k: int| 0 <= k < prefix.len() ==> prefix[k] != '#',
        !contains(domain, marker),
        at <= i < at + line(prefix, domain).len(),
    ensures
        !occurs_at(text, marker, i),
{
    lemma_prefixes();
    let m = marker.len() as int;
    lemma_split(text, prefix + domain, "\n"@, at);
    lemma_split(text, prefix, domain, at);
    let d0 = at + prefix.len();
    let nl = d0 + domain.len();
    assert(text[nl] == '\n') by {
        assert(text.subrange(nl, nl + 1)[0] == text[nl]);
    }
    if occurs_at(text, marker, i) {
        assert(text[i] == '#') by {
            assert(text.subrange(i, i + m)[0] == text[i]);
        }
        if i < d0 {
            // the line starts with its prefix, which holds no '#'
            assert(text.subrange(at, at + prefix.len())[i - at] == text[i]);
        } else {
            // the marker would have to lie within the domain
            lemma_not_across_newline(text, marker, i, nl);
            assert forall|k: int| 0 <= k < m implies domain.subrange(i - d0, i - d0 + m)[k]
                == marker[k] by {
                assert(text.subrange(i, i + m)[k] == text[i + k]);
                assert(text.subrange(d0, d0 + domain.len())[i - d0 + k] == text[i + k]);
            }
            assert(domain.subrange(i - d0, i - d0 + m) =~= marker);
            assert(occurs_at(domain, marker, i - d0));
        }
    }
}

/// A marker starts nowhere inside the four lines of a domain that does not
/// hold it.
proof fn lemma_entry_free(text: Seq<char>, marker: Seq<char>, domain: Seq<char>, at: int, i: int)
    requires
        is_marker(marker),
        occurs_at(text, entry(domain), at),
        !contains(domain, marker),
        at <= i < at + entry(domain).len(),
    ensures
        !occurs_at(text, marker, i),
{
    lemma_prefixes();
    let l1 = line("127.0.0.1 "@, domain);
    let l2 = line("127.0.0.1 www."@, domain);
    let l3 = line("::1 "@, domain);
    let l4 = line("::1 www."@, domain);
    lemma_split(text, l1 + l2 + l3, l4, at);
    lemma_split(text, l1 + l2, l3, at);
    lemma_split(text, l1, l2, at);
    if i < at + l1.len() {
        lemma_line_free(text, marker, "127.0.0.1 "@, domain, at, i);
    } else if i < at + l1.len() + l2.len() {
        lemma_line_free(text, marker, "127.0.0.1 www."@, domain, at + l1.len(), i);
    } else if i < at + l1.len() + l2.len() + l3.len() {
        lemma_line_free(text, marker, "::1 "@, domain, at + l1.len() + l2.len(), i);
    } else {
        lemma_line_free(
            text,
            marker,
            "::1 www."@,
            domain,
            at + l1.len() + l2.len() + l3.len(),
            i,
        );
    }
}

/// A marker starts nowhere inside the redirect lines of domains that do not
/// hold it.
proof fn lemma_entries_free(
    text: Seq<char>,
    marker: Seq<char>,
    domains: Seq<Seq<char>>,
    at: int,
    i: int,
)
    requires
        is_marker(marker),
        occurs_at(text, entries(domains), at),
        free_of_marker(domains, marker),
        at <= i < at + entries(domains).len(),
    ensures
        !occurs_at(text, marker, i),
    decreases domains.len(),
{
    if domains.len() > 0 {
        let head = domains.drop_last();
        lemma_split(text, entries(head), entry(domains.last()), at);
        if i < at + entries(head).len() {
            assert forall|k: int| 0 <= k < head.len() implies !contains(
                #[trigger] head[k],
                marker,
            ) by {
                assert(head[k] == domains[k]);
            }
            lemma_entries_free(text, marker, head, at, i);
        } else {
            lemma_entry_free(text, marker, domains.last(), at + entries(head).len(), i);
        }
    }
}

/// A text in which a fence for `domains` stands between `rest` and `tail`, as
/// a synchronisation writes it: two newlines, the marked section and a
/// newline.
pub open spec fn fenced(rest: Seq<char>, domains: Seq<Seq<char>>, tail: Seq<char>) -> Seq<char> {
    rest + "\n\n"@ + block(domains) + "\n"@ + tail
}

/// Where the parts of a fenced text stand: behind `rest` the two newlines, the
/// start marker, its newline, the redirect lines, the end marker and its
/// newline, and then `tail`.
proof fn lemma_fence_layout(rest: Seq<char>, domains: Seq<Seq<char>>, tail: Seq<char>)
    ensures
        ({
            let text = fenced(rest, domains, tail);
            let n = rest.len() as int;
            let s = n + 2;
            let ms = marker_start().len() as int;
            let e = s + ms + 1 + entries(domains).len();
            let me = marker_end().len() as int;
            &&& text.len() == e + me + 1 + tail.len()
            &&& occurs_at(text, rest, 0)
            &&& text[n] == '\n'
            &&& text[n + 1] == '\n'
            &&& occurs_at(text, marker_start(), s)
            &&& text[s + ms] == '\n'
            &&& occurs_at(text, entries(domains), s + ms + 1)
            &&& occurs_at(text, marker_end(), e)
            &&& text[e + me] == '\n'
            &&& occurs_at(text, tail, e + me + 1)
        }),
{
    lemma_prefixes();
    let text = fenced(rest, domains, tail);
    let n = rest.len() as int;
    let s = n + 2;
    let ms = marker_start().len() as int;
    let e = s + ms + 1 + entries(domains).len();
    let me = marker_end().len() as int;
    assert(text.subrange(0, text.len() as int) =~= text);
    lemma_split(text, rest + "\n\n"@ + block(domains) + "\n"@, tail, 0);
    lemma_split(text, rest + "\n\n"@ + block(domains), "\n"@, 0);
    lemma_split(text, rest + "\n\n"@, block(domains), 0);
    lemma_split(text, rest, "\n\n"@, 0);
    lemma_split(text, marker_start() + "\n"@ + entries(domains), marker_end(), s);
    lemma_split(text, marker_start() + "\n"@, entries(domains), s);
    lemma_split(text, marker_start(), "\n"@, s);
    assert(text[n] == '\n' && text[n + 1] == '\n') by {
        assert(text.subrange(n, n + 2)[0] == text[n]);
        assert(text.subrange(n, n + 2)[1] == text[n + 1]);
    }
    assert(text[s + ms] == '\n') by {
        assert(text.subrange(s + ms, s + ms + 1)[0] == text[s + ms]);
    }
    assert(text[e + me] == '\n') by {
        assert(text.subrange(e + me, e + me + 1)[0] == text[e + me]);
    }
}

/// In a fenced text a marker stands nowhere before the fence where it stands
/// nowhere in what stands before the fence.
proof fn lemma_no_marker_before_fence(
    rest: Seq<char>,
    domains: Seq<Seq<char>>,
    tail: Seq<char>,
    marker: Seq<char>,
    j: int,
)
    requires
        is_marker(marker),
        !contains(rest, marker),
        0 <= j < rest.len() + 2,
    ensures
        !occurs_at(fenced(rest, domains, tail), marker, j),
{
    lemma_fence_layout(rest, domains, tail);
    let text = fenced(rest, domains, tail);
    let n = rest.len() as int;
    let m = marker.len() as int;
    if occurs_at(text, marker, j) {
        if j + m <= n {
            assert forall|k: int| 0 <= k < m implies rest.subrange(j, j + m)[k] == marker[k] by {
                assert(text.subrange(j, j + m)[k] == text[j + k]);
                assert(text.subrange(0, n)[j + k] == text[j + k]);
            }
            assert(rest.subrange(j, j + m) =~= marker);
            assert(occurs_at(rest, marker, j));
        } else if j <= n {
            lemma_not_across_newline(text, marker, j, n);
        } else {
            lemma_not_across_newline(text, marker, j, n + 1);
        }
    }
}

/// A marker does not start inside a marker that stands in the text, behind
/// its first character.
proof fn lemma_not_inside_marker(
    text: Seq<char>,
    marker: Seq<char>,
    standing: Seq<char>,
    at: int,
    j: int,
)
    requires
        is_marker(marker),
        is_marker(standing),
        occurs_at(text, standing, at),
        at < j < at + standing.len(),
    ensures
        !occurs_at(text, marker, j),
{
    if occurs_at(text, marker, j) {
        assert(text.subrange(j, j + marker.len())[0] == text[j]);
        assert(text.subrange(at, at + standing.len())[j - at] == text[j]);
    }
}

/// In a fenced text the start marker stands first where the fence begins.
proof fn lemma_start_found(rest: Seq<char>, domains: Seq<Seq<char>>, tail: Seq<char>)
    requires
        !contains(rest, marker_start()),
    ensures
        first_occurrence(fenced(rest, domains, tail), marker_start(), 0) == Some(
            rest.len() as int + 2,
        ),
{
    lemma_markers();
    lemma_fence_layout(rest, domains, tail);
    let text = fenced(rest, domains, tail);
    let s = rest.len() as int + 2;
    assert forall|j: int| 0 <= j < s implies !occurs_at(text, marker_start(), j) by {
        lemma_no_marker_before_fence(rest, domains, tail, marker_start(), j);
    }
    lemma_first_occurrence_is(text, marker_start(), 0, s);
}

/// In a fenced text the end marker stands first, behind the start marker,
/// where the fence ends.
proof fn lemma_end_found(rest: Seq<char>, domains: Seq<Seq<char>>, tail: Seq<char>)
    requires
        free_of_end_marker(domains),
    ensures
        first_occurrence(
            fenced(rest, domains, tail),
            marker_end(),
            rest.len() as int + 2 + marker_start().len(),
        ) == Some(rest.len() as int + 2 + marker_start().len() + 1 + entries(domains).len()),
{
    lemma_markers();
    lemma_fence_layout(rest, domains, tail);
    let text = fenced(rest, domains, tail);
    let ms = marker_start().len() as int;
    let me = marker_end().len() as int;
    let s = rest.len() as int + 2;
    let lines_at = s + ms + 1;
    let e = lines_at + entries(domains).len() as int;
    assert forall|j: int| s + ms <= j < e implies !occurs_at(text, marker_end(), j) by {
        if j == s + ms {
            if occurs_at(text, marker_end(), j) {
                assert(text.subrange(j, j + me)[0] == text[j]);
            }
        } else {
            lemma_entries_free(text, marker_end(), domains, lines_at, j);
        }
    }
    lemma_first_occurrence_is(text, marker_end(), s + ms, e);
}

/// In a fenced text the fence is found as a whole: from behind `rest` to
/// before `tail`.
proof fn lemma_fence_found(rest: Seq<char>, domains: Seq<Seq<char>>, tail: Seq<char>)
    requires
        !contains(rest, marker_start()),
        free_of_end_marker(domains),
    ensures
        fence_bounds(fenced(rest, domains, tail)) == Some(
            (rest.len() as int, fenced(rest, domains, tail).len() - tail.len()),
        ),
        fenced(rest, domains, tail).subrange(0, rest.len() as int) == rest,
        fenced(rest, domains, tail).subrange(
            fenced(rest, domains, tail).len() - tail.len(),
            fenced(rest, domains, tail).len() as int,
        ) == tail,
{
    lemma_fence_layout(rest, domains, tail);
    lemma_start_found(rest, domains, tail);
    lemma_end_found(rest, domains, tail);
    let text = fenced(rest, domains, tail);
    let ms = marker_start().len() as int;
    let me = marker_end().len() as int;
    let n = rest.len() as int;
    let s = n + 2;
    let e = s + ms + 1 + entries(domains).len() as int;
    assert(section_bounds(text) == Some((s, e + me)));
    assert(fence_bounds(text) == Some((n, e + me + 1)));
}

/// A fence that a synchronisation wrote is found again as a whole, whatever
/// stands behind it, and cutting it out leaves what stood before it and what
/// stands behind it, kept apart by a newline where the first ends within a
/// line. It holds where what stood before holds no start marker and no domain
/// holds the end marker.
pub proof fn law_fence_followed_by_text(
    rest: Seq<char>,
    domains: Seq<Seq<char>>,
    tail: Seq<char>,
)
    requires
        !contains(rest, marker_start()),
        free_of_end_marker(domains),
    ensures
        fence_bounds(fenced(rest, domains, tail)) == Some(
            (rest.len() as int, fenced(rest, domains, tail).len() - tail.len()),
        ),
        without_fence(fenced(rest, domains, tail)) == rest + joint(rest, tail) + tail,
        tail.len() == 0 ==> without_fence(fenced(rest, domains, tail)) == rest,
        rest.len() > 0 && rest.last() != '\n' && tail.len() > 0 ==> without_fence(
            fenced(rest, domains, tail),
        ) == rest + "\n"@ + tail,
        rest.len() == 0 || rest.last() == '\n' ==> without_fence(fenced(rest, domains, tail))
            == rest + tail,
{
    lemma_fence_found(rest, domains, tail);
    let cut = without_fence(fenced(rest, domains, tail));
    assert(cut == rest + joint(rest, tail) + tail);
    if tail.len() == 0 {
        assert(cut =~= rest);
    }
    if rest.len() == 0 || rest.last() == '\n' {
        assert(cut =~= rest + tail);
    }
}

/// What a synchronisation with domains writes is a fenced text with nothing
/// behind the fence.
proof fn lemma_synced_is_fenced(contents: Seq<char>, domains: Seq<Seq<char>>)
    requires
        domains.len() > 0,
    ensures
        synced(contents, domains) == fenced(without_fence(contents), domains, Seq::empty()),
{
    assert(synced(contents, domains) =~= fenced(
        without_fence(contents),
        domains,
        Seq::empty(),
    ));
}

/// A text without start marker has no fence: cutting the fence out leaves it
/// as it is.
pub proof fn lemma_no_marker_no_fence(contents: Seq<char>)
    requires
        !contains(contents, marker_start()),
    ensures
        section_bounds(contents) is None,
        fence_bounds(contents) is None,
        without_fence(contents) == contents,
{
    lemma_first_occurrence_none(contents, marker_start(), 0);
}

/// Synchronising twice with the same domains gives the text that synchronising
/// once gives. It holds where, with domains, what is left of the text without
/// its fence holds no start marker and no domain holds the end marker; and,
/// without domains, where what is left holds no marked section.
pub proof fn law_sync_idempotent(contents: Seq<char>, domains: Seq<Seq<char>>)
    requires
        domains.len() == 0 ==> section_bounds(without_fence(contents)) is None,
        domains.len() > 0 ==> !contains(without_fence(contents), marker_start())
            && free_of_end_marker(domains),
    ensures
        synced(synced(contents, domains), domains) == synced(contents, domains),
{
    if domains.len() > 0 {
        lemma_synced_is_fenced(contents, domains);
        law_fence_followed_by_text(without_fence(contents), domains, Seq::empty());
    }
}

/// Synchronising a text that holds no start marker with some domains, and then
/// with none, gives the text back. The domains must not hold the end marker.
pub proof fn law_sync_round_trip(contents: Seq<char>, domains: Seq<Seq<char>>)
    requires
        !contains(contents, marker_start()),
        free_of_end_marker(domains),
    ensures
        synced(synced(contents, domains), Seq::<Seq<char>>::empty()) == contents,
{
    lemma_no_marker_no_fence(contents);
    if domains.len() > 0 {
        lemma_synced_is_fenced(contents, domains);
        law_fence_followed_by_text(contents, domains, Seq::empty());
    }
}

/// Synchronising with no domains a text in which a written fence is followed by
/// more text gives what stood before the fence and what stands behind it,
/// every character of both, with a newline between them where the first ends
/// within a line: no two lines run into one. It holds where neither part
/// holds a start marker and no domain holds the end marker.
pub proof fn law_sync_keeps_surroundings(
    rest: Seq<char>,
    domains: Seq<Seq<char>>,
    tail: Seq<char>,
)
    requires
        !contains(rest, marker_start()),
        free_of_end_marker(domains),
    ensures
        synced(fenced(rest, domains, tail), Seq::<Seq<char>>::empty()) == rest + joint(rest, tail)
            + tail,
        rest.len() > 0 && rest.last() != '\n' && tail.len() > 0 ==> synced(
            fenced(rest, domains, tail),
            Seq::<Seq<char>>::empty(),
        ) == rest + "\n"@ + tail,
{
    law_fence_followed_by_text(rest, domains, tail);
}

/// After a synchronisation with domains the text ends in one fenced region that
/// holds exactly the marked section for them.
pub proof fn law_sync_fence_is_last(contents: Seq<char>, domains: Seq<Seq<char>>)
    requires
        domains.len() > 0,
        !contains(without_fence(contents), marker_start()),
        free_of_end_marker(domains),
    ensures
        fence_bounds(synced(contents, domains)) == Some(
            (without_fence(contents).len() as int, synced(contents, domains).len() as int),
        ),
        synced(contents, domains).subrange(
            without_fence(contents).len() as int,
            synced(contents, domains).len() as int,
        ) == "\n\n"@ + block(domains) + "\n"@,
{
    lemma_synced_is_fenced(contents, domains);
    law_fence_followed_by_text(without_fence(contents), domains, Seq::empty());
    let rest = without_fence(contents);
    let text = synced(contents, domains);
    assert(text.subrange(rest.len() as int, text.len() as int) =~= "\n\n"@ + block(domains)
        + "\n"@);
}

/// After a synchronisation with domains the text holds exactly one fence:
/// the start marker stands at one place only, where the appended fence
/// begins. It holds where what is left of the old text without its fence
/// holds no start marker and no domain holds a marker.
pub proof fn law_sync_one_fence(contents: Seq<char>, domains: Seq<Seq<char>>, j: int)
    requires
        domains.len() > 0,
        !contains(without_fence(contents), marker_start()),
        free_of_start_marker(domains),
        free_of_end_marker(domains),
    ensures
        occurs_at(synced(contents, domains), marker_start(), j) <==> j == without_fence(
            contents,
        ).len() + 2,
{
    lemma_markers();
    let rest = without_fence(contents);
    lemma_synced_is_fenced(contents, domains);
    lemma_fence_layout(rest, domains, Seq::empty());
    let text = synced(contents, domains);
    let ms = marker_start().len() as int;
    let s = rest.len() as int + 2;
    let lines_at = s + ms + 1;
    let e = lines_at + entries(domains).len() as int;
    if 0 <= j < s {
        lemma_no_marker_before_fence(rest, domains, Seq::empty(), marker_start(), j);
    } else if s < j < s + ms {
        lemma_not_inside_marker(text, marker_start(), marker_start(), s, j);
    } else if j == s + ms {
        if occurs_at(text, marker_start(), j) {
            assert(text.subrange(j, j + ms)[0] == text[j]);
        }
    } else if lines_at <= j < e {
        lemma_entries_free(text, marker_start(), domains, lines_at, j);
    }
    // from `e` on the text is too short to hold the start marker
}

/// After a synchronisation with domains the end marker, too, stands at one
/// place only: where the appended fence ends. It holds where what is left of
/// the old text without its fence holds neither marker and no domain holds
/// the end marker.
pub proof fn law_sync_one_end_marker(contents: Seq<char>, domains: Seq<Seq<char>>, j: int)
    requires
        domains.len() > 0,
        !contains(without_fence(contents), marker_start()),
        !contains(without_fence(contents), marker_end()),
        free_of_end_marker(domains),
    ensures
        occurs_at(synced(contents, domains), marker_end(), j) <==> j == without_fence(
            contents,
        ).len() + 2 + marker_start().len() + 1 + entries(domains).len(),
{
    lemma_markers();
    let rest = without_fence(contents);
    lemma_synced_is_fenced(contents, domains);
    lemma_fence_layout(rest, domains, Seq::empty());
    let text = synced(contents, domains);
    let ms = marker_start().len() as int;
    let me = marker_end().len() as int;
    let s = rest.len() as int + 2;
    let lines_at = s + ms + 1;
    let e = lines_at + entries(domains).len() as int;
    if 0 <= j < s {
        lemma_no_marker_before_fence(rest, domains, Seq::empty(), marker_end(), j);
    } else if j == s {
        // the start marker stands here, and the two markers differ
        if occurs_at(text, marker_end(), j) {
            assert(text.subrange(s, s + me)[20] == text[s + 20]);
            assert(text.subrange(s, s + ms)[20] == text[s + 20]);
        }
    } else if s < j < s + ms {
        lemma_not_inside_marker(text, marker_end(), marker_start(), s, j);
    } else if j == s + ms {
        if occurs_at(text, marker_end(), j) {
            assert(text.subrange(j, j + me)[0] == text[j]);
        }
    } else if lines_at <= j < e {
        lemma_entries_free(text, marker_end(), domains, lines_at, j);
    } else if e < j < e + me {
        lemma_not_inside_marker(text, marker_end(), marker_end(), e, j);
    }
    // from the end of the fence on the text is too short to hold the marker
}

/// A text in which the marked section for `domains` stands between `before`
/// and `after`, with or without the newlines that a synchronisation writes
/// around it.
pub open spec fn around(before: Seq<char>, domains: Seq<Seq<char>>, after: Seq<char>) -> Seq<char> {
    before + block(domains) + after
}

/// What is kept of the text before a marked section: all of it but the two
/// newlines that separate the section from it, where they are there.
pub open spec fn kept_before(before: Seq<char>) -> Seq<char> {
    if before.len() >= 2 && before[before.len() - 2] == '\n' && before[before.len() - 1] == '\n' {
        before.subrange(0, before.len() - 2)
    } else {
        before
    }
}

/// What is kept of the text after a marked section: all of it but the newline
/// that ends the line of the end marker, where it is there.
pub open spec fn kept_after(after: Seq<char>) -> Seq<char> {
    if after.len() > 0 && after[0] == '\n' {
        after.subrange(1, after.len() as int)
    } else {
        after
    }
}

/// Where the parts of a text around a marked section stand.
proof fn lemma_around_layout(before: Seq<char>, domains: Seq<Seq<char>>, after: Seq<char>)
    ensures
        ({
            let text = around(before, domains, after);
            let n = before.len() as int;
            let ms = marker_start().len() as int;
            let e = n + ms + 1 + entries(domains).len();
            let me = marker_end().len() as int;
            &&& text.len() == e + me + after.len()
            &&& occurs_at(text, before, 0)
            &&& occurs_at(text, marker_start(), n)
            &&& text[n + ms] == '\n'
            &&& occurs_at(text, entries(domains), n + ms + 1)
            &&& occurs_at(text, marker_end(), e)
            &&& occurs_at(text, after, e + me)
        }),
{
    lemma_prefixes();
    let text = around(before, domains, after);
    let n = before.len() as int;
    let ms = marker_start().len() as int;
    assert(text.subrange(0, text.len() as int) =~= text);
    lemma_split(text, before + block(domains), after, 0);
    lemma_split(text, before, block(domains), 0);
    lemma_split(text, marker_start() + "\n"@ + entries(domains), marker_end(), n);
    lemma_split(text, marker_start() + "\n"@, entries(domains), n);
    lemma_split(text, marker_start(), "\n"@, n);
    assert(text[n + ms] == '\n') by {
        assert(text.subrange(n + ms, n + ms + 1)[0] == text[n + ms]);
    }
}

/// In a text around a marked section the start marker stands first where the
/// section begins.
proof fn lemma_around_start_found(before: Seq<char>, domains: Seq<Seq<char>>, after: Seq<char>)
    requires
        !contains(before, marker_start()),
    ensures
        first_occurrence(around(before, domains, after), marker_start(), 0) == Some(
            before.len() as int,
        ),
{
    lemma_markers();
    lemma_around_layout(before, domains, after);
    let text = around(before, domains, after);
    let n = before.len() as int;
    let ms = marker_start().len() as int;
    assert forall|j: int| 0 <= j < n implies !occurs_at(text, marker_start(), j) by {
        if occurs_at(text, marker_start(), j) {
            if j + ms <= n {
                assert forall|k: int| 0 <= k < ms implies before.subrange(j, j + ms)[k]
                    == marker_start()[k] by {
                    assert(text.subrange(j, j + ms)[k] == text[j + k]);
                    assert(text.subrange(0, n)[j + k] == text[j + k]);
                }
                assert(before.subrange(j, j + ms) =~= marker_start());
                assert(occurs_at(before, marker_start(), j));
            } else {
                // it would hold the `#` of the section behind its own first character
                assert(text.subrange(n, n + ms)[0] == text[n]);
                assert(text.subrange(j, j + ms)[n - j] == text[n]);
            }
        }
    }
    lemma_first_occurrence_is(text, marker_start(), 0, n);
}

/// In a text around a marked section the end marker stands first, behind the
/// start marker, where the section ends.
proof fn lemma_around_end_found(before: Seq<char>, domains: Seq<Seq<char>>, after: Seq<char>)
    requires
        free_of_end_marker(domains),
    ensures
        first_occurrence(
            around(before, domains, after),
            marker_end(),
            before.len() as int + marker_start().len(),
        ) == Some(before.len() as int + marker_start().len() + 1 + entries(domains).len()),
{
    lemma_markers();
    lemma_around_layout(before, domains, after);
    let text = around(before, domains, after);
    let ms = marker_start().len() as int;
    let me = marker_end().len() as int;
    let n = before.len() as int;
    let lines_at = n + ms + 1;
    let e = lines_at + entries(domains).len() as int;
    assert forall|j: int| n + ms <= j < e implies !occurs_at(text, marker_end(), j) by {
        if j == n + ms {
            if occurs_at(text, marker_end(), j) {
                assert(text.subrange(j, j + me)[0] == text[j]);
            }
        } else {
            lemma_entries_free(text, marker_end(), domains, lines_at, j);
        }
    }
    lemma_first_occurrence_is(text, marker_end(), n + ms, e);
}

/// In a text around a marked section the section is found as it stands.
proof fn lemma_around_section(before: Seq<char>, domains: Seq<Seq<char>>, after: Seq<char>)
    requires
        !contains(before, marker_start()),
        free_of_end_marker(domains),
    ensures
        section_bounds(around(before, domains, after)) == Some(
            (
                before.len() as int,
                around(before, domains, after).len() - after.len(),
            ),
        ),
        around(before, domains, after).subrange(0, before.len() as int) == before,
        around(before, domains, after).subrange(
            around(before, domains, after).len() - after.len(),
            around(before, domains, after).len() as int,
        ) == after,
{
    lemma_around_layout(before, domains, after);
    lemma_around_start_found(before, domains, after);
    lemma_around_end_found(before, domains, after);
}

/// Wherever a marked section stands in a text, cutting its fence out leaves
/// what stood before it and what stands after it: every character of both but
/// the two newlines before the section and the one newline after it, where
/// they are there, and a newline between the two parts where the first ends
/// within a line and the second goes on. It holds where the text before holds
/// no start marker and no domain holds the end marker.
pub proof fn law_fence_cut_anywhere(
    before: Seq<char>,
    domains: Seq<Seq<char>>,
    after: Seq<char>,
)
    requires
        !contains(before, marker_start()),
        free_of_end_marker(domains),
    ensures
        without_fence(around(before, domains, after)) == kept_before(before) + joint(
            kept_before(before),
            kept_after(after),
        ) + kept_after(after),
        synced(around(before, domains, after), Seq::<Seq<char>>::empty()) == kept_before(before)
            + joint(kept_before(before), kept_after(after)) + kept_after(after),
{
    lemma_around_section(before, domains, after);
    let text = around(before, domains, after);
    let n = before.len() as int;
    let end = text.len() - after.len();
    let a = if n >= 2 && text[n - 2] == '\n' && text[n - 1] == '\n' {
        n - 2
    } else {
        n
    };
    let b = if end < text.len() && text[end] == '\n' {
        end + 1
    } else {
        end
    };
    assert(fence_bounds(text) == Some((a, b)));
    assert forall|k: int| 0 <= k < n implies text[k] == before[k] by {
        assert(text.subrange(0, n)[k] == text[k]);
    }
    assert forall|k: int| 0 <= k < after.len() implies text[end + k] == after[k] by {
        assert(text.subrange(end, text.len() as int)[k] == text[end + k]);
    }
    assert(text.subrange(0, a) =~= kept_before(before));
    assert(text.subrange(b, text.len() as int) =~= kept_after(after)) by {
        if after.len() > 0 {
            assert(text[end + 0] == after[0]);
        }
    }
}

/// A marker that stands in a part of a text stands in the text.
proof fn lemma_contains_part(text: Seq<char>, marker: Seq<char>, from: int, to: int)
    requires
        0 <= from <= to <= text.len(),
        contains(text.subrange(from, to), marker),
    ensures
        contains(text, marker),
{
    let part = text.subrange(from, to);
    let i = choose|i: int| occurs_at(part, marker, i);
    assert(text.subrange(from + i, from + i + marker.len()) =~= part.subrange(
        i,
        i + marker.len(),
    ));
    assert(occurs_at(text, marker, from + i));
}

/// Two texts without a marker, put together so that no line runs over from
/// the one into the other, hold no marker.
proof fn lemma_join_free(head: Seq<char>, tail: Seq<char>, marker: Seq<char>)
    requires
        is_marker(marker),
        !contains(head, marker),
        !contains(tail, marker),
    ensures
        !contains(head + joint(head, tail) + tail, marker),
{
    lemma_prefixes();
    let sep = joint(head, tail);
    let text = head + sep + tail;
    let m = marker.len() as int;
    let h = head.len() as int;
    if contains(text, marker) {
        let j = choose|j: int| occurs_at(text, marker, j);
        if j + m <= h {
            assert(head.subrange(j, j + m) =~= text.subrange(j, j + m));
            assert(occurs_at(head, marker, j));
        } else if j >= h + sep.len() {
            let at = j - h - sep.len();
            assert(tail.subrange(at, at + m) =~= text.subrange(j, j + m));
            assert(occurs_at(tail, marker, at));
        } else if sep.len() > 0 {
            // it would hold the newline between the two
            assert(text[h] == '\n');
            lemma_not_across_newline(text, marker, j, h);
        } else {
            // it would run from the one into the other, over the newline
            // that ends the first
            assert(h > 0 && tail.len() > 0);
            assert(text[h - 1] == head[h - 1]);
            lemma_not_across_newline(text, marker, j, h - 1);
        }
    }
}

/// Synchronising with no domains a text in which a marked section stands
/// between two texts that hold no marker leaves no marker: the fence is gone
/// as a whole. It holds where no domain holds the end marker.
pub proof fn law_no_marker_left(before: Seq<char>, domains: Seq<Seq<char>>, after: Seq<char>)
    requires
        !contains(before, marker_start()),
        !contains(before, marker_end()),
        !contains(after, marker_start()),
        !contains(after, marker_end()),
        free_of_end_marker(domains),
    ensures
        !contains(
            synced(around(before, domains, after), Seq::<Seq<char>>::empty()),
            marker_start(),
        ),
        !contains(
            synced(around(before, domains, after), Seq::<Seq<char>>::empty()),
            marker_end(),
        ),
{
    lemma_markers();
    law_fence_cut_anywhere(before, domains, after);
    let head = kept_before(before);
    let tail = kept_after(after);
    assert(head =~= before.subrange(0, head.len() as int));
    assert(tail =~= after.subrange(after.len() - tail.len(), after.len() as int));
    if contains(head, marker_start()) {
        lemma_contains_part(before, marker_start(), 0, head.len() as int);
    }
    if contains(head, marker_end()) {
        lemma_contains_part(before, marker_end(), 0, head.len() as int);
    }
    if contains(tail, marker_start()) {
        lemma_contains_part(after, marker_start(), after.len() - tail.len(), after.len() as int);
    }
    if contains(tail, marker_end()) {
        lemma_contains_part(after, marker_end(), after.len() - tail.len(), after.len() as int);
    }
    lemma_join_free(head, tail, marker_start());
    lemma_join_free(head, tail, marker_end());
}

} // verus!
