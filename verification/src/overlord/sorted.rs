//! Relay URLs and event ids in the order of their texts, each once.

use vstd::prelude::*;
use crate::keys::Id;
use crate::lex::{lemma_lex_less, lemma_lex_transitive, lex_less};
use crate::relay_sort::text_before;
use crate::text::{id_hex, lemma_id_hex_injective};
use crate::url::{distinct_urls, has_url, RelayUrl};

verus! {

/// Whether the URLs stand in the order of their texts, none twice.
pub open spec fn sorted_urls(urls: Seq<RelayUrl>) -> bool {
    forall|i: int, j: int|
        0 <= i < j < urls.len() ==> lex_less(#[trigger] urls[i]@, #[trigger] urls[j]@)
}

/// Whether `r` holds the URLs of `all`, each once, in the order of their
/// texts.
pub open spec fn sorted_set_of(r: Seq<RelayUrl>, all: Seq<RelayUrl>) -> bool {
    &&& sorted_urls(r)
    &&& forall|u: Seq<char>|
        #![trigger has_url(r, u)]
        #![trigger has_url(all, u)]
        has_url(r, u) == has_url(all, u)
}

/// URLs in the order of their texts are all different.
pub proof fn lemma_sorted_urls_distinct(urls: Seq<RelayUrl>)
    requires
        sorted_urls(urls),
    ensures
        distinct_urls(urls),
{
    assert forall|i: int, j: int| 0 <= i < urls.len() && 0 <= j < urls.len() && i != j implies (
    #[trigger] urls[i])@ != (#[trigger] urls[j])@ by {
        lemma_lex_less(urls[i]@, urls[j]@);
        if i < j {
            assert(lex_less(urls[i]@, urls[j]@));
        } else {
            assert(lex_less(urls[j]@, urls[i]@));
        }
    }
}

/// Puts `url` in its place among `sorted`, unless it is there.
fn insert_url(sorted: &mut Vec<RelayUrl>, url: &RelayUrl)
    requires
        sorted_urls(old(sorted)@),
    ensures
        sorted_urls(final(sorted)@),
        forall|u: Seq<char>|
            #![trigger has_url(final(sorted)@, u)]
            has_url(final(sorted)@, u) == (has_url(old(sorted)@, u) || u == url@),
{
    let ghost before = sorted@;
    let mut j: usize = sorted.len();
    while j > 0 && text_before(url.as_str(), sorted[j - 1].as_str())
        invariant
            j <= sorted.len(),
            sorted@ == before,
            forall|k: int| j <= k < before.len() ==> lex_less(url@, (#[trigger] before[k])@),
        decreases j,
    {
        j -= 1;
    }
    if j > 0 && sorted[j - 1].same_as(url) {
        proof {
            assert forall|u: Seq<char>| #![trigger has_url(before, u)] has_url(before, u) == (
            has_url(before, u) || u == url@) by {
                if u == url@ {
                    assert(before[j - 1]@ == u);
                }
            }
        }
        return ;
    }
    sorted.insert(j, url.clone());
    proof {
        let after = sorted@;
        if j > 0 {
            lemma_lex_less(before[j - 1]@, url@);
            assert(lex_less(before[j - 1]@, url@));
        }
        assert forall|p: int, q: int| 0 <= p < q < after.len() implies lex_less(
            #[trigger] after[p]@,
            #[trigger] after[q]@,
        ) by {
            if q < j {
                assert(after[p] == before[p] && after[q] == before[q]);
            } else if q == j {
                assert(after[p] == before[p]);
                if p < j - 1 {
                    assert(lex_less(before[p]@, before[j - 1]@));
                    lemma_lex_transitive(before[p]@, before[j - 1]@, url@);
                }
            } else if p == j {
                assert(after[q] == before[q - 1]);
            } else if p < j {
                assert(after[p] == before[p] && after[q] == before[q - 1]);
            } else {
                assert(after[p] == before[p - 1] && after[q] == before[q - 1]);
            }
        }
        assert forall|u: Seq<char>| #![trigger has_url(after, u)] has_url(after, u) == (has_url(
            before,
            u,
        ) || u == url@) by {
            if has_url(after, u) {
                let k = choose|k: int| 0 <= k < after.len() && (#[trigger] after[k])@ == u;
                if k < j {
                    assert(before[k]@ == u);
                } else if k > j {
                    assert(before[k - 1]@ == u);
                }
            }
            if has_url(before, u) {
                let k = choose|k: int| 0 <= k < before.len() && (#[trigger] before[k])@ == u;
                if k < j {
                    assert(after[k]@ == u);
                } else {
                    assert(after[k + 1]@ == u);
                }
            }
            if u == url@ {
                assert(after[j as int]@ == u);
            }
        }
    }
}

/// The URLs, each once, in the order of their texts.
pub fn sort_urls(urls: &Vec<RelayUrl>) -> (r: Vec<RelayUrl>)
    ensures
        sorted_set_of(r@, urls@),
        distinct_urls(r@),
{
    let mut out: Vec<RelayUrl> = Vec::new();
    let mut i: usize = 0;
    assert forall|u: Seq<char>| #![trigger has_url(out@, u)] has_url(out@, u) == has_url(
        urls@.take(0),
        u,
    ) by {}
    while i < urls.len()
        invariant
            i <= urls.len(),
            sorted_urls(out@),
            forall|u: Seq<char>|
                #![trigger has_url(out@, u)]
                has_url(out@, u) == has_url(urls@.take(i as int), u),
        decreases urls.len() - i,
    {
        let ghost so_far = out@;
        insert_url(&mut out, &urls[i]);
        proof {
            let done = urls@.take(i as int);
            let more = urls@.take(i + 1);
            assert forall|u: Seq<char>| #![trigger has_url(out@, u)] has_url(out@, u) == has_url(
                more,
                u,
            ) by {
                assert(has_url(so_far, u) == has_url(done, u));
                if has_url(done, u) {
                    let k = choose|k: int| 0 <= k < done.len() && (#[trigger] done[k])@ == u;
                    assert(more[k]@ == u);
                }
                if u == urls@[i as int]@ {
                    assert(more[i as int]@ == u);
                }
                if has_url(more, u) {
                    let k = choose|k: int| 0 <= k < more.len() && (#[trigger] more[k])@ == u;
                    if k < i {
                        assert(done[k]@ == u);
                    }
                }
            }
        }
        i += 1;
    }
    proof {
        assert(urls@.take(i as int) =~= urls@);
        lemma_sorted_urls_distinct(out@);
    }
    out
}

/// Whether the ids stand in the order of their texts in hexadecimal
/// digits, none twice.
pub open spec fn sorted_ids(ids: Seq<Id>) -> bool {
    forall|i: int, j: int|
        0 <= i < j < ids.len() ==> lex_less(id_hex(#[trigger] ids[i]), id_hex(#[trigger] ids[j]))
}

/// Whether `r` holds the ids of `all`, each once, in the order of their
/// texts in hexadecimal digits.
pub open spec fn sorted_ids_of(r: Seq<Id>, all: Seq<Id>) -> bool {
    &&& sorted_ids(r)
    &&& forall|x: Id|
        #![trigger r.contains(x)]
        #![trigger all.contains(x)]
        r.contains(x) == all.contains(x)
}

/// Puts `id` in its place among `sorted`, unless it is there.
fn insert_id(sorted: &mut Vec<Id>, id: Id)
    requires
        sorted_ids(old(sorted)@),
    ensures
        sorted_ids(final(sorted)@),
        forall|x: Id|
            #![trigger final(sorted)@.contains(x)]
            final(sorted)@.contains(x) == (old(sorted)@.contains(x) || x == id),
{
    let ghost before = sorted@;
    let text = id.as_hex_string();
    let mut j: usize = sorted.len();
    while j > 0 && text_before(text.as_str(), sorted[j - 1].as_hex_string().as_str())
        invariant
            j <= sorted.len(),
            sorted@ == before,
            text@ == id_hex(id),
            forall|k: int|
                j <= k < before.len() ==> lex_less(id_hex(id), id_hex(#[trigger] before[k])),
        decreases j,
    {
        j -= 1;
    }
    if j > 0 && sorted[j - 1] == id {
        proof {
            assert forall|x: Id| #![trigger before.contains(x)] before.contains(x) == (
            before.contains(x) || x == id) by {
                if x == id {
                    assert(before[j - 1] == x);
                }
            }
        }
        return ;
    }
    sorted.insert(j, id);
    proof {
        let after = sorted@;
        if j > 0 {
            lemma_id_hex_injective(before[j - 1], id);
            lemma_lex_less(id_hex(before[j - 1]), id_hex(id));
            assert(lex_less(id_hex(before[j - 1]), id_hex(id)));
        }
        assert forall|p: int, q: int| 0 <= p < q < after.len() implies lex_less(
            id_hex(#[trigger] after[p]),
            id_hex(#[trigger] after[q]),
        ) by {
            if q < j {
                assert(after[p] == before[p] && after[q] == before[q]);
            } else if q == j {
                assert(after[p] == before[p]);
                if p < j - 1 {
                    assert(lex_less(id_hex(before[p]), id_hex(before[j - 1])));
                    lemma_lex_transitive(id_hex(before[p]), id_hex(before[j - 1]), id_hex(id));
                }
            } else if p == j {
                assert(after[q] == before[q - 1]);
            } else if p < j {
                assert(after[p] == before[p] && after[q] == before[q - 1]);
            } else {
                assert(after[p] == before[p - 1] && after[q] == before[q - 1]);
            }
        }
        assert forall|x: Id| #![trigger after.contains(x)] after.contains(x) == (before.contains(
            x,
        ) || x == id) by {
            if after.contains(x) {
                let k = choose|k: int| 0 <= k < after.len() && after[k] == x;
                if k < j {
                    assert(before[k] == x);
                } else if k > j {
                    assert(before[k - 1] == x);
                }
            }
            if before.contains(x) {
                let k = choose|k: int| 0 <= k < before.len() && before[k] == x;
                if k < j {
                    assert(after[k] == x);
                } else {
                    assert(after[k + 1] == x);
                }
            }
            if x == id {
                assert(after[j as int] == x);
            }
        }
    }
}

/// The ids, each once, in the order of their texts in hexadecimal digits.
pub fn sort_ids(ids: &Vec<Id>) -> (r: Vec<Id>)
    ensures
        sorted_ids_of(r@, ids@),
{
    let mut out: Vec<Id> = Vec::new();
    let mut i: usize = 0;
    assert forall|x: Id| #![trigger out@.contains(x)] out@.contains(x) == ids@.take(0).contains(
        x,
    ) by {}
    while i < ids.len()
        invariant
            i <= ids.len(),
            sorted_ids(out@),
            forall|x: Id|
                #![trigger out@.contains(x)]
                out@.contains(x) == ids@.take(i as int).contains(x),
        decreases ids.len() - i,
    {
        let ghost so_far = out@;
        insert_id(&mut out, ids[i]);
        proof {
            let done = ids@.take(i as int);
            let more = ids@.take(i + 1);
            assert forall|x: Id| #![trigger out@.contains(x)] out@.contains(x) == more.contains(
                x,
            ) by {
                assert(so_far.contains(x) == done.contains(x));
                if done.contains(x) {
                    let k = choose|k: int| 0 <= k < done.len() && done[k] == x;
                    assert(more[k] == x);
                }
                if x == ids@[i as int] {
                    assert(more[i as int] == x);
                }
                if more.contains(x) {
                    let k = choose|k: int| 0 <= k < more.len() && more[k] == x;
                    if k < i {
                        assert(done[k] == x);
                    }
                }
            }
        }
        i += 1;
    }
    assert(ids@.take(i as int) =~= ids@);
    out
}

} // verus!
