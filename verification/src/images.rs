//! Image lookup decisions.
//!
//! The engine returns lists of candidate images; the logic here picks
//! the one the reconciler should consider current (preferring a
//! `:latest` tag, then the newest creation time), and splits an image
//! reference into name and tag, defaulting the tag to `latest`.

use vstd::prelude::*;

use crate::validate::contains_name;

verus! {

/// Mathematical view of an [`ImageInfo`].
pub ghost struct ImageInfoView {
    pub id: Seq<char>,
    pub created: int,
    pub repo_tags: Seq<Seq<char>>,
}

/// What the engine reports about one image.
pub struct ImageInfo {
    /// Content identity of the image.
    pub id: String,
    /// Creation time, seconds since the epoch.
    pub created: i64,
    /// All `name:tag` references pointing at the image.
    pub repo_tags: Vec<String>,
}

impl View for ImageInfo {
    type V = ImageInfoView;

    open spec fn view(&self) -> ImageInfoView {
        ImageInfoView {
            id: self.id@,
            created: self.created as int,
            repo_tags: self.repo_tags.deep_view(),
        }
    }
}

impl DeepView for ImageInfo {
    type V = ImageInfoView;

    open spec fn deep_view(&self) -> ImageInfoView {
        self.view()
    }
}

/// The image carries the tag `{name}:latest`.
pub open spec fn has_latest_tag(img: ImageInfoView, name: Seq<char>) -> bool {
    img.repo_tags.contains(name + seq![':', 'l', 'a', 't', 'e', 's', 't'])
}

/// Picks the image a reference resolves to among the engine's
/// candidates: the single candidate when there is one; otherwise the
/// first candidate tagged `{name}:latest`; otherwise the first
/// candidate of maximal creation time.
pub fn select_image(images: &Vec<ImageInfo>, image_name: &String) -> (r: Option<usize>)
    ensures
        r is None <==> images.deep_view().len() == 0,
        r matches Some(k) ==> {
            let iv = images.deep_view();
            &&& (k as int) < iv.len()
            &&& (iv.len() == 1 ==> k == 0)
            &&& (iv.len() != 1 && (exists|j: int|
                0 <= j < iv.len() && has_latest_tag(#[trigger] iv[j], image_name@)) ==> {
                &&& has_latest_tag(iv[k as int], image_name@)
                &&& forall|j: int| 0 <= j < k ==> !has_latest_tag(#[trigger] iv[j], image_name@)
            })
            &&& (iv.len() != 1 && !(exists|j: int|
                0 <= j < iv.len() && has_latest_tag(#[trigger] iv[j], image_name@)) ==> {
                &&& (forall|j: int|
                    0 <= j < iv.len() ==> (#[trigger] iv[j]).created <= iv[k as int].created)
                &&& (forall|j: int| 0 <= j < k ==> (#[trigger] iv[j]).created < iv[k as int].created)
            })
        },
{
    let ghost iv = images.deep_view();
    let n = images.len();
    if n == 0 {
        return None;
    }
    if n == 1 {
        return Some(0);
    }
    proof {
        reveal_strlit(":latest");
        assert(":latest"@ =~= seq![':', 'l', 'a', 't', 'e', 's', 't']);
    }
    let mut target = image_name.clone();
    target.append(":latest");
    proof {
        assert(target@ =~= image_name@ + seq![':', 'l', 'a', 't', 'e', 's', 't']);
    }
    let mut found: usize = 0;
    let mut i: usize = 0;
    while i < n
        invariant
            i <= n,
            n == images@.len(),
            n > 1,
            iv == images.deep_view(),
            target@ == image_name@ + seq![':', 'l', 'a', 't', 'e', 's', 't'],
            found < n,
            forall|j: int| 0 <= j < i ==> !has_latest_tag(#[trigger] iv[j], image_name@),
            forall|j: int| 0 <= j < i ==> (#[trigger] iv[j]).created <= iv[found as int].created,
            forall|j: int| 0 <= j < found ==> (#[trigger] iv[j]).created < iv[found as int].created,
            found <= i || found == 0,
        decreases n - i,
    {
        if contains_name(&images[i].repo_tags, &target) {
            proof {
                assert(has_latest_tag(iv[i as int], image_name@));
            }
            return Some(i);
        }
        if images[i].created > images[found].created {
            found = i;
        }
        i = i + 1;
    }
    Some(found)
}

/// Index of the first occurrence of `c` in `s` (meaningful only when
/// one exists).
pub open spec fn first_occurrence(s: Seq<char>, c: char) -> int
    decreases s.len(),
{
    if s.len() == 0 {
        0
    } else if s[0] == c {
        0
    } else {
        1 + first_occurrence(s.drop_first(), c)
    }
}

/// When `c` occurs in `s`, `first_occurrence` points at its first
/// occurrence.
pub proof fn lemma_first_occurrence(s: Seq<char>, c: char)
    requires
        s.contains(c),
    ensures
        0 <= first_occurrence(s, c) < s.len(),
        s[first_occurrence(s, c)] == c,
        forall|j: int| 0 <= j < first_occurrence(s, c) ==> s[j] != c,
    decreases s.len(),
{
    if s.len() > 0 && s[0] != c {
        let rest = s.drop_first();
        assert(rest.contains(c)) by {
            let i = choose|i: int| 0 <= i < s.len() && s[i] == c;
            assert(i > 0);
            assert(rest[i - 1] == c);
        }
        lemma_first_occurrence(rest, c);
        let f = first_occurrence(rest, c);
        assert(s[1 + f] == rest[f]);
        assert forall|j: int| 0 <= j < 1 + f implies s[j] != c by {
            if j > 0 {
                assert(rest[j - 1] == s[j]);
            }
        }
    }
}

/// Splits an image reference at its first colon into name and tag; a
/// reference without a tag gets `latest`.
pub fn parse_image_ref(name: &str) -> (r: (String, String))
    ensures
        !name@.contains(':') ==> r.0@ == name@ && r.1@ == seq!['l', 'a', 't', 'e', 's', 't'],
        name@.contains(':') ==> {
            let f = first_occurrence(name@, ':');
            r.0@ == name@.take(f) && r.1@ == name@.skip(f + 1)
        },
{
    let n = name.unicode_len();
    let mut i: usize = 0;
    while i < n
        invariant
            i <= n,
            n == name@.len(),
            forall|j: int| 0 <= j < i ==> name@[j] != ':',
        decreases n - i,
    {
        if name.get_char(i) == ':' {
            proof {
                assert(name@[i as int] == ':');
                assert(name@.contains(':'));
                lemma_first_occurrence(name@, ':');
                assert(first_occurrence(name@, ':') == i as int);
            }
            let head = name.substring_char(0, i).to_owned();
            let tail = name.substring_char(i + 1, n).to_owned();
            proof {
                assert(head@ =~= name@.take(i as int));
                assert(tail@ =~= name@.skip(i as int + 1));
            }
            return (head, tail);
        }
        i = i + 1;
    }
    proof {
        if name@.contains(':') {
            let j = choose|j: int| 0 <= j < name@.len() && name@[j] == ':';
            assert(false);
        }
        reveal_strlit("latest");
        assert("latest"@ =~= seq!['l', 'a', 't', 'e', 's', 't']);
    }
    (name.to_owned(), String::from_str("latest"))
}

} // verus!
