use vstd::prelude::*;

use crate::paths::{base_name, find_last, lemma_last_index_bounds};

verus! {

/// A photo as the groupers report it.
#[derive(Debug)]
pub struct PhotoInfo {
    pub id: String,
    pub file_path: String,
    pub tier: String,
}

pub struct PhotoInfoView {
    pub id: Seq<char>,
    pub file_path: Seq<char>,
    pub tier: Seq<char>,
}

impl View for PhotoInfo {
    type V = PhotoInfoView;

    open spec fn view(&self) -> PhotoInfoView {
        PhotoInfoView { id: self.id@, file_path: self.file_path@, tier: self.tier@ }
    }
}

impl PhotoInfo {
    /// A field-by-field copy.
    pub fn duplicate(&self) -> (r: PhotoInfo)
        ensures
            r@ == self@,
    {
        PhotoInfo { id: self.id.clone(), file_path: self.file_path.clone(), tier: self.tier.clone() }
    }
}

/// A photo with the modification time of its file, in seconds.
#[derive(Debug)]
pub struct TimedPhoto {
    pub photo: PhotoInfo,
    pub modified: u64,
}

pub struct TimedView {
    pub photo: PhotoInfoView,
    pub modified: u64,
}

impl View for TimedPhoto {
    type V = TimedView;

    open spec fn view(&self) -> TimedView {
        TimedView { photo: self.photo@, modified: self.modified }
    }
}

/// A photo with a digest of its file's current bytes.
#[derive(Debug)]
pub struct HashedPhoto {
    pub photo: PhotoInfo,
    pub digest: String,
}

pub struct HashedView {
    pub photo: PhotoInfoView,
    pub digest: Seq<char>,
}

impl View for HashedPhoto {
    type V = HashedView;

    open spec fn view(&self) -> HashedView {
        HashedView { photo: self.photo@, digest: self.digest@ }
    }
}

pub open spec fn infos_view(v: Seq<PhotoInfo>) -> Seq<PhotoInfoView> {
    v.map_values(|p: PhotoInfo| p@)
}

pub open spec fn groups_view(v: Seq<Vec<PhotoInfo>>) -> Seq<Seq<PhotoInfoView>> {
    v.map_values(|g: Vec<PhotoInfo>| infos_view(g@))
}

/// Photos taken this close together (in seconds) may belong to one burst.
pub const BURST_WINDOW_SECS: u64 = 10;

/// Position of the first `c` in `s`, or `s.len()` when there is none.
pub open spec fn first_index(s: Seq<char>, c: char) -> int {
    if exists|k: int| 0 <= k < s.len() && s[k] == c && forall|j: int| 0 <= j < k ==> s[j] != c {
        choose|k: int| 0 <= k < s.len() && s[k] == c && forall|j: int| 0 <= j < k ==> s[j] != c
    } else {
        s.len() as int
    }
}

/// The part of a path's file name before its first underscore (all of it when there is none).
pub open spec fn burst_prefix(path: Seq<char>) -> Seq<char> {
    let name = base_name(path);
    name.subrange(0, first_index(name, '_'))
}

/// Whether `b`, coming right after `a` in time order, continues a burst with it.
pub open spec fn linked(a: TimedView, b: TimedView) -> bool {
    b.modified <= a.modified + BURST_WINDOW_SECS && burst_prefix(a.photo.file_path)
        == burst_prefix(b.photo.file_path)
}

/// `sorted` with `x` placed after every element not later than it.
pub open spec fn insert_by_time(sorted: Seq<TimedView>, x: TimedView) -> Seq<TimedView>
    decreases sorted.len(),
{
    if sorted.len() == 0 || sorted.last().modified <= x.modified {
        sorted.push(x)
    } else {
        insert_by_time(sorted.drop_last(), x).push(sorted.last())
    }
}

/// `s` ordered by modification time, photos with equal times keeping their order.
pub open spec fn sort_by_time(s: Seq<TimedView>) -> Seq<TimedView>
    decreases s.len(),
{
    if s.len() == 0 {
        s
    } else {
        insert_by_time(sort_by_time(s.drop_last()), s.last())
    }
}

/// `s` cut into maximal runs in which each photo is linked to the one before it.
pub open spec fn runs(s: Seq<TimedView>) -> Seq<Seq<TimedView>>
    decreases s.len(),
{
    if s.len() == 0 {
        Seq::empty()
    } else if s.len() == 1 {
        seq![s]
    } else {
        let r = runs(s.drop_last());
        if linked(s[s.len() - 2], s.last()) {
            r.update(r.len() - 1, r.last().push(s.last()))
        } else {
            r.push(seq![s.last()])
        }
    }
}

/// The runs with at least two photos, as photos.
pub open spec fn bursts_of(rs: Seq<Seq<TimedView>>) -> Seq<Seq<PhotoInfoView>>
    decreases rs.len(),
{
    if rs.len() == 0 {
        Seq::empty()
    } else if rs.last().len() >= 2 {
        bursts_of(rs.drop_last()).push(rs.last().map_values(|t: TimedView| t.photo))
    } else {
        bursts_of(rs.drop_last())
    }
}

/// The bursts among `photos`: in time order, the maximal runs of two or more photos each
/// taken within the window of the one before and sharing its file name prefix.
pub open spec fn detect_bursts_spec(photos: Seq<TimedView>) -> Seq<Seq<PhotoInfoView>> {
    bursts_of(runs(sort_by_time(photos)))
}

proof fn lemma_insert_by_time_at(sorted: Seq<TimedView>, x: TimedView, p: int)
    requires
        0 <= p <= sorted.len(),
        forall|j: int| p <= j < sorted.len() ==> sorted[j].modified > x.modified,
        p > 0 ==> sorted[p - 1].modified <= x.modified,
    ensures
        insert_by_time(sorted, x) == sorted.insert(p, x),
    decreases sorted.len(),
{
    if p < sorted.len() {
        lemma_insert_by_time_at(sorted.drop_last(), x, p);
        assert(insert_by_time(sorted, x) =~= sorted.insert(p, x));
    } else {
        assert(sorted.push(x) =~= sorted.insert(p, x));
    }
}

fn first_underscore(s: &str) -> (r: usize)
    ensures
        r as int == first_index(s@, '_'),
        r <= s@.len(),
{
    let n = s.unicode_len();
    let mut i: usize = 0;
    while i < n
        invariant
            n == s@.len(),
            i <= n,
            forall|j: int| 0 <= j < i ==> s@[j] != '_',
        decreases n - i,
    {
        if s.get_char(i) == '_' {
            let ghost k = choose|k: int| 0 <= k < s@.len() && s@[k] == '_' && forall|j: int| 0 <= j < k ==> s@[j] != '_';
            assert(s@[i as int] == '_');
            assert(k == i) by {
                if k > i {
                    assert(s@[i as int] != '_');
                }
            }
            return i;
        }
        i += 1;
    }
    n
}

fn prefix_of(path: &str) -> (r: String)
    ensures
        r@ == burst_prefix(path@),
{
    let n = path.unicode_len();
    proof {
        lemma_last_index_bounds(path@, '/');
    }
    let start: usize = match find_last(path, '/') {
        Some(k) => k + 1,
        None => 0,
    };
    let name = path.substring_char(start, n);
    assert(name@ == base_name(path@));
    let k = first_underscore(name);
    name.substring_char(0, k).to_owned()
}

/// `photos` ordered by modification time, stably.
fn sorted_by_time(photos: &Vec<TimedPhoto>) -> (r: Vec<TimedPhoto>)
    ensures
        r@.map_values(|t: TimedPhoto| t@) == sort_by_time(photos@.map_values(|t: TimedPhoto| t@)),
{
    let ghost input = photos@.map_values(|t: TimedPhoto| t@);
    let mut out: Vec<TimedPhoto> = Vec::new();
    let mut i: usize = 0;
    assert(input.subrange(0, 0) =~= Seq::<TimedView>::empty());
    while i < photos.len()
        invariant
            input == photos@.map_values(|t: TimedPhoto| t@),
            i <= photos.len(),
            out@.map_values(|t: TimedPhoto| t@) == sort_by_time(input.subrange(0, i as int)),
        decreases photos.len() - i,
    {
        let x = TimedPhoto { photo: photos[i].photo.duplicate(), modified: photos[i].modified };
        assert(x@ == input[i as int]);
        let mut p: usize = out.len();
        while p > 0 && out[p - 1].modified > x.modified
            invariant
                p <= out.len(),
                forall|j: int| p <= j < out.len() ==> out@[j].modified > x.modified,
            decreases p,
        {
            p -= 1;
        }
        let ghost before = out@.map_values(|t: TimedPhoto| t@);
        proof {
            lemma_insert_by_time_at(before, x@, p as int);
        }
        let ghost xv = x@;
        out.insert(p, x);
        assert(out@.map_values(|t: TimedPhoto| t@) =~= before.insert(p as int, xv));
        assert(input.subrange(0, i + 1).drop_last() =~= input.subrange(0, i as int));
        i += 1;
    }
    assert(input.subrange(0, input.len() as int) =~= input);
    out
}

/// The photos of `s` whose digest is `d`, in order.
pub open spec fn with_digest(s: Seq<HashedView>, d: Seq<char>) -> Seq<HashedView>
    decreases s.len(),
{
    if s.len() == 0 {
        s
    } else if s.last().digest == d {
        with_digest(s.drop_last(), d).push(s.last())
    } else {
        with_digest(s.drop_last(), d)
    }
}

/// Whether `s[i]` is the first photo of `s` with its digest.
pub open spec fn first_of_digest(s: Seq<HashedView>, i: int) -> bool {
    forall|j: int| 0 <= j < i ==> s[j].digest != s[i].digest
}

/// The duplicate groups among the first `n` photos' digests: for each digest, in order of
/// first appearance, all photos of `s` with it, when there are at least two.
pub open spec fn duplicate_groups_upto(s: Seq<HashedView>, n: int) -> Seq<Seq<PhotoInfoView>>
    decreases n,
{
    if n <= 0 {
        Seq::empty()
    } else {
        let g = duplicate_groups_upto(s, n - 1);
        let group = with_digest(s, s[n - 1].digest);
        if first_of_digest(s, n - 1) && group.len() >= 2 {
            g.push(group.map_values(|h: HashedView| h.photo))
        } else {
            g
        }
    }
}

/// The groups of photos with identical bytes: one per digest held by two or more photos, in
/// order of the digest's first appearance, each listing its photos in input order.
pub open spec fn detect_duplicates_spec(s: Seq<HashedView>) -> Seq<Seq<PhotoInfoView>> {
    duplicate_groups_upto(s, s.len() as int)
}

/// Groups of photos that look like one burst; see [`detect_bursts_spec`].
pub struct PhotoManager;

impl PhotoManager {
    /// The bursts among `photos`, in time order; see [`detect_bursts_spec`].
    pub fn detect_bursts(photos: &Vec<TimedPhoto>) -> (r: Vec<Vec<PhotoInfo>>)
        ensures
            groups_view(r@) == detect_bursts_spec(photos@.map_values(|t: TimedPhoto| t@)),
    {
        Self::bursts_in_order(&sorted_by_time(photos))
    }

    /// The groups of photos whose files hold identical bytes; see [`detect_duplicates_spec`].
    pub fn detect_duplicates(photos: &Vec<HashedPhoto>) -> (r: Vec<Vec<PhotoInfo>>)
        ensures
            groups_view(r@) == detect_duplicates_spec(photos@.map_values(|h: HashedPhoto| h@)),
    {
        let ghost sv = photos@.map_values(|h: HashedPhoto| h@);
        let n = photos.len();
        let mut groups: Vec<Vec<PhotoInfo>> = Vec::new();
        let mut i: usize = 0;
        assert(groups_view(groups@) =~= Seq::<Seq<PhotoInfoView>>::empty());
        while i < n
            invariant
                sv == photos@.map_values(|h: HashedPhoto| h@),
                n == photos.len(),
                i <= n,
                groups_view(groups@) == duplicate_groups_upto(sv, i as int),
            decreases n - i,
        {
            let d = &photos[i].digest;
            assert(d@ == sv[i as int].digest);
            let mut first = true;
            let mut j: usize = 0;
            while j < i
                invariant
                    sv == photos@.map_values(|h: HashedPhoto| h@),
                    n == photos.len(),
                    i < n,
                    j <= i,
                    d@ == sv[i as int].digest,
                    first == (forall|k: int| 0 <= k < j ==> sv[k].digest != sv[i as int].digest),
                decreases i - j,
            {
                assert(photos@[j as int]@ == sv[j as int]);
                if photos[j].digest == *d {
                    first = false;
                }
                j += 1;
            }
            let ghost old_groups = groups_view(groups@);
            if first {
                let group = Self::photos_with_digest(photos, d);
                if group.len() >= 2 {
                    let ghost gv = infos_view(group@);
                    groups.push(group);
                    assert(groups_view(groups@) =~= old_groups.push(gv));
                }
            }
            i += 1;
        }
        groups
    }

    fn photos_with_digest(photos: &Vec<HashedPhoto>, d: &String) -> (r: Vec<PhotoInfo>)
        ensures
            infos_view(r@) == with_digest(photos@.map_values(|h: HashedPhoto| h@), d@).map_values(
                |h: HashedView| h.photo,
            ),
            r@.len() == with_digest(photos@.map_values(|h: HashedPhoto| h@), d@).len(),
    {
        let ghost sv = photos@.map_values(|h: HashedPhoto| h@);
        let mut out: Vec<PhotoInfo> = Vec::new();
        let mut k: usize = 0;
        assert(sv.subrange(0, 0) =~= Seq::<HashedView>::empty());
        assert(infos_view(out@) =~= with_digest(sv.subrange(0, 0), d@).map_values(|h: HashedView| h.photo));
        while k < photos.len()
            invariant
                sv == photos@.map_values(|h: HashedPhoto| h@),
                k <= photos.len(),
                infos_view(out@) == with_digest(sv.subrange(0, k as int), d@).map_values(
                    |h: HashedView| h.photo,
                ),
                out@.len() == with_digest(sv.subrange(0, k as int), d@).len(),
            decreases photos.len() - k,
        {
            assert(photos@[k as int]@ == sv[k as int]);
            let ghost prev = with_digest(sv.subrange(0, k as int), d@);
            assert(sv.subrange(0, k + 1).drop_last() =~= sv.subrange(0, k as int));
            if photos[k].digest == *d {
                let ghost before = infos_view(out@);
                out.push(photos[k].photo.duplicate());
                assert(infos_view(out@) =~= before.push(sv[k as int].photo));
                assert(prev.push(sv[k as int]).map_values(|h: HashedView| h.photo) =~= prev.map_values(
                    |h: HashedView| h.photo,
                ).push(sv[k as int].photo));
            }
            k += 1;
        }
        assert(sv.subrange(0, photos.len() as int) =~= sv);
        out
    }

    fn bursts_in_order(s: &Vec<TimedPhoto>) -> (r: Vec<Vec<PhotoInfo>>)
        ensures
            groups_view(r@) == bursts_of(runs(s@.map_values(|t: TimedPhoto| t@))),
    {
        let ghost sv = s@.map_values(|t: TimedPhoto| t@);
        let mut bursts: Vec<Vec<PhotoInfo>> = Vec::new();
        if s.len() == 0 {
            assert(groups_view(bursts@) =~= Seq::<Seq<PhotoInfoView>>::empty());
            return bursts;
        }
        let mut current: Vec<PhotoInfo> = Vec::new();
        current.push(s[0].photo.duplicate());
        let mut last_time: u64 = s[0].modified;
        let mut last_prefix: String = prefix_of(s[0].photo.file_path.as_str());
        let mut i: usize = 1;
        assert(s@[0]@ == sv[0]);
        assert(sv.subrange(0, 1) =~= seq![sv[0]]);
        assert(runs(sv.subrange(0, 1)) == seq![seq![sv[0]]]);
        assert(infos_view(current@) =~= seq![sv[0]].map_values(|t: TimedView| t.photo));
        assert(groups_view(bursts@) =~= bursts_of(runs(sv.subrange(0, 1)).drop_last()));
        while i < s.len()
            invariant
                sv == s@.map_values(|t: TimedPhoto| t@),
                1 <= i <= s.len(),
                runs(sv.subrange(0, i as int)).len() >= 1,
                groups_view(bursts@) == bursts_of(runs(sv.subrange(0, i as int)).drop_last()),
                infos_view(current@) == runs(sv.subrange(0, i as int)).last().map_values(
                    |t: TimedView| t.photo,
                ),
                current@.len() >= 1,
                last_time == sv[i - 1].modified,
                last_prefix@ == burst_prefix(sv[i - 1].photo.file_path),
            decreases s.len() - i,
        {
            let ghost pre = sv.subrange(0, i as int);
            let ghost next = sv.subrange(0, i + 1);
            let ghost r = runs(pre);
            assert(next.drop_last() =~= pre);
            assert(next[next.len() - 2] == sv[i - 1]);
            assert(next.last() == sv[i as int]);
            let t = &s[i];
            assert(t@ == sv[i as int]);
            assert(infos_view(current@).len() == current@.len());
            assert(r.last().map_values(|t: TimedView| t.photo).len() == r.last().len());
            assert(r.last().len() == current@.len());
            let ghost cur_before = infos_view(current@);
            let prefix = prefix_of(t.photo.file_path.as_str());
            let close = t.modified <= last_time || t.modified - last_time <= BURST_WINDOW_SECS;
            if close && prefix == last_prefix {
                assert(linked(sv[i - 1], sv[i as int]));
                let dup = t.photo.duplicate();
                current.push(dup);
                assert(infos_view(current@) =~= cur_before.push(sv[i as int].photo));
                assert(r.last().push(sv[i as int]).map_values(|t: TimedView| t.photo) =~= r.last().map_values(|t: TimedView| t.photo).push(sv[i as int].photo));
                assert(runs(next) == r.update(r.len() - 1, r.last().push(sv[i as int])));
                assert(runs(next).last() == r.last().push(sv[i as int]));
                assert(runs(next).drop_last() =~= r.drop_last());
                assert(infos_view(current@) =~= runs(next).last().map_values(|t: TimedView| t.photo));
            } else {
                assert(!linked(sv[i - 1], sv[i as int]));
                assert(runs(next) == r.push(seq![sv[i as int]]));
                assert(runs(next).drop_last() =~= r);
                let ghost old_bursts = groups_view(bursts@);
                if current.len() > 1 {
                    let ghost cv = infos_view(current@);
                    bursts.push(current);
                    assert(groups_view(bursts@) =~= old_bursts.push(cv));
                }
                current = Vec::new();
                assert(groups_view(bursts@) == bursts_of(r));
                current.push(t.photo.duplicate());
                assert(infos_view(current@) =~= seq![sv[i as int]].map_values(|t: TimedView| t.photo));
            }
            last_time = t.modified;
            last_prefix = prefix;
            i += 1;
        }
        assert(sv.subrange(0, s.len() as int) =~= sv);
        let ghost r = runs(sv);
        let ghost old_bursts = groups_view(bursts@);
        if current.len() > 1 {
            let ghost cv = infos_view(current@);
            bursts.push(current);
            assert(groups_view(bursts@) =~= old_bursts.push(cv));
        }
        assert(r =~= r.drop_last().push(r.last()));
        bursts
    }
}

} // verus!
