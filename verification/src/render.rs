//! Rendering of history descriptions: a pure substitution of
//! `{{name}}` placeholders from a metadata snapshot. Rendering happens
//! at query time against the metadata captured when the entry was
//! recorded, so descriptions stay accurate even if live node data later
//! changes or is deleted. A placeholder whose name is not in the
//! metadata is kept verbatim.

use vstd::prelude::*;
use crate::model::{Attr, AttrView, attr_lookup, attrs_view, find_attr};
use crate::strutil::{chars_of, string_of};

verus! {

/// The position of the first `}}` at or after `k`, or `-1`.
pub open spec fn find_close(t: Seq<char>, k: int) -> int
    decreases t.len() - k,
{
    if k < 0 || k + 1 >= t.len() {
        -1
    } else if t[k] == '}' && t[k + 1] == '}' {
        k
    } else {
        find_close(t, k + 1)
    }
}

/// A found closing position lies at or after where the search began.
pub proof fn lemma_find_close_at_or_after(t: Seq<char>, k: int)
    requires
        find_close(t, k) >= 0,
    ensures
        find_close(t, k) >= k,
        find_close(t, k) + 1 < t.len(),
    decreases t.len() - k,
{
    if !(k < 0 || k + 1 >= t.len()) && !(t[k] == '}' && t[k + 1] == '}') {
        lemma_find_close_at_or_after(t, k + 1);
    }
}

/// The rendering of the template from position `i` on: placeholders
/// `{{name}}` become the first metadata value of that name, or stay
/// verbatim when the name is absent; everything else is copied.
pub open spec fn render_from(t: Seq<char>, meta: Seq<AttrView>, i: int) -> Seq<char>
    decreases t.len() - i,
{
    if i < 0 || i >= t.len() {
        Seq::empty()
    } else if t[i] == '{' && i + 1 < t.len() && t[i + 1] == '{' && find_close(t, i + 2) >= i + 2
        && find_close(t, i + 2) + 1 < t.len() {
        let j = find_close(t, i + 2);
        let key = t.subrange(i + 2, j);
        let rep = match attr_lookup(meta, key) {
            Some(v) => v,
            None => t.subrange(i, j + 2),
        };
        rep + render_from(t, meta, j + 2)
    } else {
        seq![t[i]] + render_from(t, meta, i + 1)
    }
}

/// The full rendering of a template against a metadata snapshot.
pub open spec fn render_spec(t: Seq<char>, meta: Seq<AttrView>) -> Seq<char> {
    render_from(t, meta, 0)
}

/// Find the first `}}` at or after `k`, as the spec describes.
fn find_close_exec(t: &Vec<char>, k: usize) -> (r: Option<usize>)
    ensures
        match r {
            Some(j) => find_close(t@, k as int) == j && j + 1 < t@.len(),
            None => find_close(t@, k as int) == -1,
        },
{
    let n = t.len();
    if n == 0 {
        return None;
    }
    let mut cur = k;
    while cur < n - 1
        invariant
            n == t@.len(),
            n >= 1,
            k <= cur,
            find_close(t@, k as int) == find_close(t@, cur as int),
        decreases n - cur,
    {
        if t[cur] == '}' && t[cur + 1] == '}' {
            return Some(cur);
        }
        cur = cur + 1;
    }
    None
}

/// Append the rendering of the template from position `i` on.
fn render_rec(t: &Vec<char>, meta: &Vec<Attr>, i: usize, out: &mut Vec<char>)
    ensures
        final(out)@ == old(out)@ + render_from(t@, attrs_view(meta@), i as int),
    decreases t@.len() - i,
{
    let ghost m = attrs_view(meta@);
    let n = t.len();
    if i >= n {
        proof {
            assert(out@ =~= out@ + render_from(t@, m, i as int));
        }
        return ;
    }
    if t[i] == '{' && i + 1 < n && t[i + 1] == '{' {
        match find_close_exec(t, i + 2) {
            Some(j) => {
                proof {
                    lemma_find_close_at_or_after(t@, i + 2);
                }
                // The placeholder name.
                let mut key_chars: Vec<char> = Vec::new();
                let mut p = i + 2;
                while p < j
                    invariant
                        i + 2 <= p <= j,
                        j + 1 < t@.len(),
                        n == t@.len(),
                        key_chars@ == t@.subrange(i + 2, p as int),
                    decreases j - p,
                {
                    key_chars.push(t[p]);
                    proof {
                        assert(key_chars@ =~= t@.subrange(i + 2, p + 1));
                    }
                    p = p + 1;
                }
                let key = string_of(&key_chars);
                let ghost opre = out@;
                match find_attr(meta, &key) {
                    Some(v) => {
                        let vc = chars_of(&v);
                        let mut w: usize = 0;
                        let vn = vc.len();
                        while w < vn
                            invariant
                                vn == vc@.len(),
                                w <= vn,
                                out@ == opre + vc@.subrange(0, w as int),
                            decreases vn - w,
                        {
                            out.push(vc[w]);
                            proof {
                                assert(out@ =~= opre + vc@.subrange(0, w + 1));
                            }
                            w = w + 1;
                        }
                        proof {
                            assert(vc@.subrange(0, vn as int) =~= vc@);
                        }
                    },
                    None => {
                        let mut w = i;
                        while w < j + 2
                            invariant
                                i <= w <= j + 2,
                                j + 1 < t@.len(),
                                n == t@.len(),
                                out@ == opre + t@.subrange(i as int, w as int),
                            decreases j + 2 - w,
                        {
                            out.push(t[w]);
                            proof {
                                assert(out@ =~= opre + t@.subrange(i as int, w + 1));
                            }
                            w = w + 1;
                        }
                    },
                }
                render_rec(t, meta, j + 2, out);
                proof {
                    assert(out@ =~= opre + render_from(t@, m, i as int));
                }
            },
            None => {
                let ghost opre = out@;
                out.push(t[i]);
                render_rec(t, meta, i + 1, out);
                proof {
                    assert(out@ =~= opre + render_from(t@, m, i as int));
                }
            },
        }
    } else {
        let ghost opre = out@;
        out.push(t[i]);
        render_rec(t, meta, i + 1, out);
        proof {
            assert(out@ =~= opre + render_from(t@, m, i as int));
        }
    }
}

/// Render a description template against a metadata snapshot.
pub fn render(template: &String, meta: &Vec<Attr>) -> (r: String)
    ensures
        r@ == render_spec(template@, attrs_view(meta@)),
{
    let chars = chars_of(template);
    let mut out: Vec<char> = Vec::new();
    render_rec(&chars, meta, 0, &mut out);
    proof {
        assert(out@ =~= render_from(template@, attrs_view(meta@), 0));
    }
    string_of(&out)
}

} // verus!
