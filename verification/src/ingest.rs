//! Ingestion-side validation: a URL-ingested job is accepted only for the
//! one video site the downloader understands.

use vstd::prelude::*;

verus! {

/// Does `n` occur in `h` as a contiguous run?
pub open spec fn contains_sub(h: Seq<char>, n: Seq<char>) -> bool {
    exists|i: int| 0 <= i && i + n.len() <= h.len() && #[trigger] h.subrange(i, i + n.len()) == n
}

/// Naive substring search over characters.
fn contains_chars(h: &str, n: &str) -> (r: bool)
    ensures
        r == contains_sub(h@, n@),
{
    let hl: usize = h.unicode_len();
    let nl: usize = n.unicode_len();
    if nl > hl {
        proof {
            assert(!contains_sub(h@, n@));
        }
        return false;
    }
    if nl == 0 {
        proof {
            assert(contains_sub(h@, n@)) by {
                assert(h@.subrange(0, 0 + n@.len() as int) =~= n@);
            }
        }
        return true;
    }
    let mut i: usize = 0;
    while i <= hl - nl
        invariant
            0 <= i <= hl - nl + 1,
            1 <= nl <= hl,
            hl == h@.len(),
            nl == n@.len(),
            forall|ii: int| 0 <= ii < i ==> #[trigger] h@.subrange(ii, ii + n@.len()) != n@,
        decreases hl - i,
    {
        let mut j: usize = 0;
        let mut hit: bool = true;
        while j < nl
            invariant
                0 <= j <= nl,
                i + nl <= hl,
                hl == h@.len(),
                nl == n@.len(),
                hit ==> forall|t: int| 0 <= t < j ==> h@[i + t] == #[trigger] n@[t],
                !hit ==> h@.subrange(i as int, i + n@.len()) != n@,
            decreases nl - j,
        {
            if hit {
                let hc: char = h.get_char(i + j);
                let nc: char = n.get_char(j);
                if hc != nc {
                    proof {
                        assert(h@.subrange(i as int, i + n@.len())[j as int] == h@[i + j]);
                    }
                    hit = false;
                }
            }
            j = j + 1;
        }
        if hit {
            proof {
                assert(h@.subrange(i as int, i + n@.len()) =~= n@);
            }
            return true;
        }
        i = i + 1;
    }
    proof {
        assert forall|ii: int| 0 <= ii && ii + n@.len() <= h@.len() implies #[trigger] h@.subrange(
            ii,
            ii + n@.len(),
        ) != n@ by {
            assert(ii < i);
        }
    }
    false
}

/// Does this text point at the one video site URL ingestion accepts? True
/// exactly when it mentions the site's long or short host name.
pub fn is_youtube_url(url: &str) -> (r: bool)
    ensures
        r == (contains_sub(url@, "youtube.com"@) || contains_sub(url@, "youtu.be"@)),
{
    contains_chars(url, "youtube.com") || contains_chars(url, "youtu.be")
}

} // verus!
