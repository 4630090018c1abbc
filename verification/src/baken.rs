//! The shared GeoJSON profile of the importers: layer types and the
//! description of an import's source.

use vstd::prelude::*;

use crate::keyed::KeyedVec;
use crate::text::{chars_of, string_of};

verus! {

/// The name of the profile written into every envelope.
pub const SCHEMA: &'static str = "baken-geo/1";

/// The type of layer a feature collection holds.
#[derive(Clone, Copy, Debug, PartialEq, Eq, Structural)]
pub enum Laagtype {
    Klic,
    Ontwerp,
    Onderlegger,
    Meetpunten,
    Projecten,
}

/// The name of a layer type in the profile.
pub open spec fn laagtype_name(l: Laagtype) -> Seq<char> {
    match l {
        Laagtype::Klic => "klic"@,
        Laagtype::Ontwerp => "ontwerp"@,
        Laagtype::Onderlegger => "onderlegger"@,
        Laagtype::Meetpunten => "meetpunten"@,
        Laagtype::Projecten => "projecten"@,
    }
}

impl Laagtype {
    /// The name of the layer type in the profile.
    pub fn as_str(&self) -> (r: &'static str)
        ensures
            r@ == laagtype_name(*self),
    {
        match self {
            Laagtype::Klic => "klic",
            Laagtype::Ontwerp => "ontwerp",
            Laagtype::Onderlegger => "onderlegger",
            Laagtype::Meetpunten => "meetpunten",
            Laagtype::Projecten => "projecten",
        }
    }
}

/// Where an import came from: its format, its files and, for KLIC
/// deliveries, the notification numbers.
#[derive(Clone, Debug)]
pub struct Bron {
    pub formaat: String,
    pub bestanden: Vec<String>,
    pub meldnummers: Vec<String>,
}

/// The tags of one profile feature that its envelope summarises.
pub struct FeatureTags {
    pub thema: Option<String>,
    pub netbeheerder: Option<String>,
}

/// How many of `fs` have thema `k`.
pub open spec fn thema_count(fs: Seq<FeatureTags>, k: Seq<char>) -> nat
    decreases fs.len(),
{
    if fs.len() == 0 {
        0
    } else {
        thema_count(fs.drop_last(), k) + (if fs.last().thema matches Some(t) && t@ == k {
            1nat
        } else {
            0
        })
    }
}

/// The feature names network operator `k`.
pub open spec fn names_operator(f: FeatureTags, k: Seq<char>) -> bool {
    f.netbeheerder matches Some(n) && n@ == k
}

/// Some feature of `fs` names network operator `k`.
pub open spec fn names_netbeheerder(fs: Seq<FeatureTags>, k: Seq<char>) -> bool {
    exists|i: int| 0 <= i < fs.len() && names_operator(#[trigger] fs[i], k)
}

proof fn lemma_thema_count_le(fs: Seq<FeatureTags>, k: Seq<char>)
    ensures
        thema_count(fs, k) <= fs.len(),
    decreases fs.len(),
{
    if fs.len() > 0 {
        lemma_thema_count_le(fs.drop_last(), k);
    }
}

/// The envelope summary of features: the number of features per thema,
/// and the network operators named, each once, in ascending order.
pub fn summarize_tags(fs: &Vec<FeatureTags>) -> (r: (KeyedVec<usize>, KeyedVec<usize>))
    ensures
        forall|k: Seq<char>| #[trigger] r.0.get_spec(k) == (if thema_count(fs@, k) > 0 {
            Some(thema_count(fs@, k) as usize)
        } else {
            None
        }),
        forall|k: Seq<char>| (#[trigger] r.1.get_spec(k) is Some) == names_netbeheerder(fs@, k),
{
    let mut themas: KeyedVec<usize> = KeyedVec::new();
    let mut nbs: KeyedVec<usize> = KeyedVec::new();
    proof {
        assert forall|k: Seq<char>| #[trigger] themas.get_spec(k) is None by {
            crate::keyed::lemma_lookup_absent(themas.entries(), k);
        }
        assert forall|k: Seq<char>| #[trigger] nbs.get_spec(k) is None by {
            crate::keyed::lemma_lookup_absent(nbs.entries(), k);
        }
    }
    for i in 0..fs.len()
        invariant
            forall|k: Seq<char>| #[trigger] themas.get_spec(k) == (if thema_count(fs@.take(i as int), k) > 0 {
                Some(thema_count(fs@.take(i as int), k) as usize)
            } else {
                None
            }),
            forall|k: Seq<char>| (#[trigger] nbs.get_spec(k) is Some) == names_netbeheerder(fs@.take(i as int), k),
    {
        let ghost pre = fs@.take(i as int);
        let ghost post = fs@.take(i + 1);
        proof {
            assert(post.drop_last() =~= pre);
            assert(post.last() == fs@[i as int]);
            lemma_thema_count_le(post, fs@[i as int].thema->Some_0@);
        }
        let f = &fs[i];
        match &f.thema {
            Some(t) => {
                let kc = chars_of(t.as_str());
                let c: usize = match themas.get(&kc) {
                    Some(c) => *c,
                    None => 0,
                };
                proof {
                    assert(thema_count(post, t@) == thema_count(pre, t@) + 1);
                    assert(i + 1 <= fs@.len());
                }
                themas.insert(string_of(&kc), c + 1);
                proof {
                    assert forall|k: Seq<char>| #[trigger] themas.get_spec(k) == (if thema_count(post, k) > 0 {
                        Some(thema_count(post, k) as usize)
                    } else {
                        None
                    }) by {
                        if k != t@ {
                            assert(thema_count(post, k) == thema_count(pre, k));
                        }
                    }
                }
            },
            None => {
                proof {
                    assert forall|k: Seq<char>| #[trigger] themas.get_spec(k) == (if thema_count(post, k) > 0 {
                        Some(thema_count(post, k) as usize)
                    } else {
                        None
                    }) by {
                        assert(thema_count(post, k) == thema_count(pre, k));
                    }
                }
            },
        }
        match &f.netbeheerder {
            Some(n) => {
                let kc = chars_of(n.as_str());
                nbs.insert(string_of(&kc), 0);
                proof {
                    assert forall|k: Seq<char>| (#[trigger] nbs.get_spec(k) is Some) == names_netbeheerder(post, k) by {
                        if names_netbeheerder(pre, k) {
                            let j = choose|j: int| 0 <= j < pre.len() && names_operator(#[trigger] pre[j], k);
                            assert(post[j] == pre[j]);
                        }
                        if names_netbeheerder(post, k) {
                            let j = choose|j: int| 0 <= j < post.len() && names_operator(#[trigger] post[j], k);
                            if j < pre.len() {
                                assert(post[j] == pre[j]);
                            }
                        }
                        if k == n@ {
                            assert(post[i as int] == fs@[i as int]);
                        }
                    }
                }
            },
            None => {
                proof {
                    assert forall|k: Seq<char>| (#[trigger] nbs.get_spec(k) is Some) == names_netbeheerder(post, k) by {
                        if names_netbeheerder(pre, k) {
                            let j = choose|j: int| 0 <= j < pre.len() && names_operator(#[trigger] pre[j], k);
                            assert(post[j] == pre[j]);
                        }
                        if names_netbeheerder(post, k) {
                            let j = choose|j: int| 0 <= j < post.len() && names_operator(#[trigger] post[j], k);
                            if j < pre.len() {
                                assert(post[j] == pre[j]);
                            }
                        }
                    }
                }
            },
        }
    }
    proof {
        assert(fs@.take(fs@.len() as int) =~= fs@);
    }
    (themas, nbs)
}

} // verus!
