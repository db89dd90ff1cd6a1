use vstd::prelude::*;

use crate::naming::{allocated_path, contains_name, unique_path};
use crate::paths::{file_name, file_name_of, join, join_path, text_eq};
use crate::tier::{parse_tier, tier_name, tier_named, Tier};

verus! {

/// One catalog row: a photo's identity, location, tier, content hash and timestamps.
#[derive(Debug)]
pub struct Photo {
    pub id: String,
    pub original_path: String,
    pub storage_path: String,
    pub tier: Tier,
    pub hash: String,
    pub created_at: i64,
    pub updated_at: i64,
    /// `None` while the photo is active; the time it went to the trash otherwise.
    pub deleted_at: Option<i64>,
}

pub struct PhotoView {
    pub id: Seq<char>,
    pub original_path: Seq<char>,
    pub storage_path: Seq<char>,
    pub tier: Tier,
    pub hash: Seq<char>,
    pub created_at: i64,
    pub updated_at: i64,
    pub deleted_at: Option<i64>,
}

impl View for Photo {
    type V = PhotoView;

    open spec fn view(&self) -> PhotoView {
        PhotoView {
            id: self.id@,
            original_path: self.original_path@,
            storage_path: self.storage_path@,
            tier: self.tier,
            hash: self.hash@,
            created_at: self.created_at,
            updated_at: self.updated_at,
            deleted_at: self.deleted_at,
        }
    }
}

impl Photo {
    /// A field-by-field copy.
    pub fn duplicate(&self) -> (r: Photo)
        ensures
            r@ == self@,
    {
        Photo {
            id: self.id.clone(),
            original_path: self.original_path.clone(),
            storage_path: self.storage_path.clone(),
            tier: self.tier,
            hash: self.hash.clone(),
            created_at: self.created_at,
            updated_at: self.updated_at,
            deleted_at: self.deleted_at,
        }
    }

    pub fn is_active(&self) -> (r: bool)
        ensures
            r == is_active(self@),
    {
        self.deleted_at.is_none()
    }
}

pub open spec fn is_active(p: PhotoView) -> bool {
    p.deleted_at is None
}

pub open spec fn photos_view(v: Seq<Photo>) -> Seq<PhotoView> {
    v.map_values(|p: Photo| p@)
}

/// Why a catalog operation was refused.
#[derive(Clone, Copy, Debug, PartialEq, Eq, Structural)]
pub enum StoreError {
    /// No active row has the requested id.
    NotFound,
    /// The tier name is outside the closed set.
    InvalidTier,
    /// The path has no usable file name.
    InvalidPath,
    /// A row with this id already exists.
    DuplicateId,
    /// An active row with this content hash already exists.
    DuplicateContent,
    /// Another file of the same name already sits where the photo's file would go.
    DestinationExists,
}

/// The catalog of photos together with the fixed roots that its files live under.
pub struct MediaStore {
    media_root: String,
    trash_root: String,
    thumbs_root: String,
    rows: Vec<Photo>,
}

pub struct CatalogView {
    pub media_root: Seq<char>,
    pub trash_root: Seq<char>,
    pub thumbs_root: Seq<char>,
    pub rows: Seq<PhotoView>,
}

impl View for MediaStore {
    type V = CatalogView;

    closed spec fn view(&self) -> CatalogView {
        CatalogView {
            media_root: self.media_root@,
            trash_root: self.trash_root@,
            thumbs_root: self.thumbs_root@,
            rows: photos_view(self.rows@),
        }
    }
}

/// Ids are unique, and no two active rows share a content hash.
pub open spec fn rows_wf(rows: Seq<PhotoView>) -> bool {
    &&& forall|i: int, j: int| 0 <= i < j < rows.len() ==> rows[i].id != rows[j].id
    &&& forall|i: int, j: int|
        0 <= i < j < rows.len() && is_active(rows[i]) && is_active(rows[j]) ==> rows[i].hash
            != rows[j].hash
}

/// Whether `path` is a file of tier `tier`: an entry directly in that tier's directory.
pub open spec fn placed(root: Seq<char>, path: Seq<char>, tier: Tier) -> bool {
    file_name_of(path) is Some && path == join(join(root, tier_name(tier)), file_name_of(path)->0)
}

/// Every active row's file sits in its tier's directory under `root`.
pub open spec fn rows_placed(root: Seq<char>, rows: Seq<PhotoView>) -> bool {
    forall|i: int|
        0 <= i < rows.len() && is_active(#[trigger] rows[i]) ==> placed(
            root,
            rows[i].storage_path,
            rows[i].tier,
        )
}

pub open spec fn has_id(rows: Seq<PhotoView>, id: Seq<char>) -> bool {
    exists|i: int| 0 <= i < rows.len() && rows[i].id == id
}

pub open spec fn has_active_hash(rows: Seq<PhotoView>, hash: Seq<char>) -> bool {
    exists|i: int| 0 <= i < rows.len() && is_active(rows[i]) && rows[i].hash == hash
}

/// Position of the row with id `id`.
pub open spec fn id_index(rows: Seq<PhotoView>, id: Seq<char>) -> Option<int> {
    if has_id(rows, id) {
        Some(choose|i: int| 0 <= i < rows.len() && rows[i].id == id)
    } else {
        None
    }
}

/// Position of the active row with id `id`.
pub open spec fn active_index(rows: Seq<PhotoView>, id: Seq<char>) -> Option<int> {
    match id_index(rows, id) {
        Some(i) => if is_active(rows[i]) {
            Some(i)
        } else {
            None
        },
        None => None,
    }
}

/// The active rows, in catalog order.
pub open spec fn active_rows(rows: Seq<PhotoView>) -> Seq<PhotoView>
    decreases rows.len(),
{
    if rows.len() == 0 {
        Seq::empty()
    } else if is_active(rows.last()) {
        active_rows(rows.drop_last()).push(rows.last())
    } else {
        active_rows(rows.drop_last())
    }
}

/// `sorted` (most recently updated first) with `x` placed after every row updated no earlier.
pub open spec fn insert_by_recency(sorted: Seq<PhotoView>, x: PhotoView) -> Seq<PhotoView>
    decreases sorted.len(),
{
    if sorted.len() == 0 || sorted.last().updated_at >= x.updated_at {
        sorted.push(x)
    } else {
        insert_by_recency(sorted.drop_last(), x).push(sorted.last())
    }
}

/// `rows` ordered most recently updated first, rows updated at the same time keeping their
/// order.
pub open spec fn by_recency(rows: Seq<PhotoView>) -> Seq<PhotoView>
    decreases rows.len(),
{
    if rows.len() == 0 {
        rows
    } else {
        insert_by_recency(by_recency(rows.drop_last()), rows.last())
    }
}

/// The standard listing: the active rows, most recently updated first.
pub open spec fn active_listing(rows: Seq<PhotoView>) -> Seq<PhotoView> {
    by_recency(active_rows(rows))
}

proof fn lemma_insert_by_recency_at(sorted: Seq<PhotoView>, x: PhotoView, p: int)
    requires
        0 <= p <= sorted.len(),
        forall|j: int| p <= j < sorted.len() ==> sorted[j].updated_at < x.updated_at,
        p > 0 ==> sorted[p - 1].updated_at >= x.updated_at,
    ensures
        insert_by_recency(sorted, x) == sorted.insert(p, x),
    decreases sorted.len(),
{
    if p < sorted.len() {
        lemma_insert_by_recency_at(sorted.drop_last(), x, p);
        assert(insert_by_recency(sorted, x) =~= sorted.insert(p, x));
    } else {
        assert(sorted.push(x) =~= sorted.insert(p, x));
    }
}

pub open spec fn with_rows(s: CatalogView, rows: Seq<PhotoView>) -> CatalogView {
    CatalogView { rows, ..s }
}

/// Adding a row: refused when its id is in use, when it is active and an active row already
/// holds its content, or when it is active and its file is not in its tier's directory.
pub open spec fn insert_spec(s: CatalogView, p: PhotoView) -> Result<CatalogView, StoreError> {
    if has_id(s.rows, p.id) {
        Err(StoreError::DuplicateId)
    } else if is_active(p) && has_active_hash(s.rows, p.hash) {
        Err(StoreError::DuplicateContent)
    } else if is_active(p) && !placed(s.media_root, p.storage_path, p.tier) {
        Err(StoreError::InvalidPath)
    } else {
        Ok(with_rows(s, s.rows.push(p)))
    }
}

/// What ingestion decided before any file was touched.
pub enum IngestPlan {
    /// An active photo already holds these bytes: nothing is copied.
    Duplicate,
    /// Copy the source to `dest`, then record it.
    CopyTo { dest: String },
}

pub enum IngestPlanView {
    Duplicate,
    CopyTo { dest: Seq<char> },
}

impl View for IngestPlan {
    type V = IngestPlanView;

    open spec fn view(&self) -> IngestPlanView {
        match self {
            IngestPlan::Duplicate => IngestPlanView::Duplicate,
            IngestPlan::CopyTo { dest } => IngestPlanView::CopyTo { dest: dest@ },
        }
    }
}

/// The directory new photos are copied into.
pub open spec fn intake_dir(s: CatalogView) -> Seq<char> {
    join(s.media_root, tier_name(Tier::Bronze))
}

/// Ingestion of `source`, whose content hash is `hash`, with `taken` the names already in the
/// intake directory.
pub open spec fn plan_ingest_spec(
    s: CatalogView,
    source: Seq<char>,
    hash: Seq<char>,
    taken: Seq<Seq<char>>,
) -> Result<IngestPlanView, StoreError> {
    if has_active_hash(s.rows, hash) {
        Ok(IngestPlanView::Duplicate)
    } else {
        match file_name_of(source) {
            None => Err(StoreError::InvalidPath),
            Some(name) => Ok(
                IngestPlanView::CopyTo { dest: allocated_path(join(intake_dir(s), name), taken) },
            ),
        }
    }
}

pub open spec fn ingested_row(
    id: Seq<char>,
    source: Seq<char>,
    dest: Seq<char>,
    hash: Seq<char>,
    now: i64,
) -> PhotoView {
    PhotoView {
        id,
        original_path: source,
        storage_path: dest,
        tier: Tier::Bronze,
        hash,
        created_at: now,
        updated_at: now,
        deleted_at: None,
    }
}

/// A tier move that was validated and may now be carried out on disk.
pub struct PromotePlan {
    pub id: String,
    pub from: String,
    pub to: String,
    pub tier: Tier,
}

pub struct PromotePlanView {
    pub id: Seq<char>,
    pub from: Seq<char>,
    pub to: Seq<char>,
    pub tier: Tier,
}

impl View for PromotePlan {
    type V = PromotePlanView;

    open spec fn view(&self) -> PromotePlanView {
        PromotePlanView { id: self.id@, from: self.from@, to: self.to@, tier: self.tier }
    }
}

/// Promotion of photo `id` to the tier named `tier`, with `taken` the names already in that
/// tier's directory: the tier is checked first, then the row; the file keeps its name in the
/// new tier's directory, which must not hold another file of that name.
pub open spec fn plan_promote_spec(
    s: CatalogView,
    id: Seq<char>,
    tier: Seq<char>,
    taken: Seq<Seq<char>>,
) -> Result<
    PromotePlanView,
    StoreError,
> {
    match tier_named(tier) {
        None => Err(StoreError::InvalidTier),
        Some(t) => match active_index(s.rows, id) {
            None => Err(StoreError::NotFound),
            Some(i) => match file_name_of(s.rows[i].storage_path) {
                None => Err(StoreError::InvalidPath),
                Some(name) => {
                    let to = join(join(s.media_root, tier_name(t)), name);
                    if taken.contains(name) && to != s.rows[i].storage_path {
                        Err(StoreError::DestinationExists)
                    } else {
                        Ok(PromotePlanView { id, from: s.rows[i].storage_path, to, tier: t })
                    }
                },
            },
        },
    }
}

/// Recording a promotion whose file move succeeded; the new path must lie in the new tier's
/// directory.
pub open spec fn commit_promote_spec(s: CatalogView, plan: PromotePlanView, now: i64) -> Result<
    CatalogView,
    StoreError,
> {
    match active_index(s.rows, plan.id) {
        None => Err(StoreError::NotFound),
        Some(i) => if !placed(s.media_root, plan.to, plan.tier) {
            Err(StoreError::InvalidPath)
        } else {
            Ok(
                with_rows(
                    s,
                    s.rows.update(
                        i,
                        PhotoView {
                            storage_path: plan.to,
                            tier: plan.tier,
                            updated_at: now,
                            ..s.rows[i]
                        },
                    ),
                ),
            )
        },
    }
}

/// A promotion from start to end, its file move having succeeded.
pub open spec fn promote_spec(
    s: CatalogView,
    id: Seq<char>,
    tier: Seq<char>,
    taken: Seq<Seq<char>>,
    now: i64,
) -> Result<CatalogView, StoreError> {
    match plan_promote_spec(s, id, tier, taken) {
        Ok(plan) => commit_promote_spec(s, plan, now),
        Err(e) => Err(e),
    }
}

/// A deletion that was validated and may now be carried out on disk.
pub enum DeletePlan {
    /// Remove the file at `path` (a missing file is fine), then the row.
    Remove { id: String, path: String },
    /// Move the file from `from` into the trash at `to`, then mark the row deleted.
    Trash { id: String, from: String, to: String },
}

pub enum DeletePlanView {
    Remove { id: Seq<char>, path: Seq<char> },
    Trash { id: Seq<char>, from: Seq<char>, to: Seq<char> },
}

impl View for DeletePlan {
    type V = DeletePlanView;

    open spec fn view(&self) -> DeletePlanView {
        match self {
            DeletePlan::Remove { id, path } => DeletePlanView::Remove { id: id@, path: path@ },
            DeletePlan::Trash { id, from, to } => DeletePlanView::Trash {
                id: id@,
                from: from@,
                to: to@,
            },
        }
    }
}

pub open spec fn delete_plan_id(p: DeletePlanView) -> Seq<char> {
    match p {
        DeletePlanView::Remove { id, .. } => id,
        DeletePlanView::Trash { id, .. } => id,
    }
}

/// The name a file keeps in the trash.
pub open spec fn trash_name(path: Seq<char>) -> Seq<char> {
    match file_name_of(path) {
        Some(name) => name,
        None => seq!['p', 'h', 'o', 't', 'o'],
    }
}

/// Deletion of photo `id`, with `taken` the names already in the trash.
pub open spec fn plan_delete_spec(
    s: CatalogView,
    id: Seq<char>,
    permanent: bool,
    taken: Seq<Seq<char>>,
) -> Result<DeletePlanView, StoreError> {
    match active_index(s.rows, id) {
        None => Err(StoreError::NotFound),
        Some(i) => if permanent {
            Ok(DeletePlanView::Remove { id, path: s.rows[i].storage_path })
        } else {
            Ok(
                DeletePlanView::Trash {
                    id,
                    from: s.rows[i].storage_path,
                    to: allocated_path(
                        join(s.trash_root, trash_name(s.rows[i].storage_path)),
                        taken,
                    ),
                },
            )
        },
    }
}

/// Recording a deletion whose file step is done.
pub open spec fn commit_delete_spec(s: CatalogView, plan: DeletePlanView, now: i64) -> Result<
    CatalogView,
    StoreError,
> {
    match active_index(s.rows, delete_plan_id(plan)) {
        None => Err(StoreError::NotFound),
        Some(i) => match plan {
            DeletePlanView::Remove { .. } => Ok(with_rows(s, s.rows.remove(i))),
            DeletePlanView::Trash { to, .. } => Ok(
                with_rows(
                    s,
                    s.rows.update(
                        i,
                        PhotoView {
                            storage_path: to,
                            deleted_at: Some(now),
                            updated_at: now,
                            ..s.rows[i]
                        },
                    ),
                ),
            ),
        },
    }
}

/// A deletion from start to end, its file step having succeeded.
pub open spec fn delete_spec(
    s: CatalogView,
    id: Seq<char>,
    permanent: bool,
    taken: Seq<Seq<char>>,
    now: i64,
) -> Result<CatalogView, StoreError> {
    match plan_delete_spec(s, id, permanent, taken) {
        Ok(plan) => commit_delete_spec(s, plan, now),
        Err(e) => Err(e),
    }
}

/// Where a thumbnail of photo `id` is read from and written to.
pub struct ThumbnailPlan {
    pub source: String,
    pub dest: String,
}

pub open spec fn thumbnail_file(thumbs_root: Seq<char>, id: Seq<char>) -> Seq<char> {
    join(thumbs_root, id + seq!['.', 'j', 'p', 'g'])
}

pub open spec fn result_view<T: View>(r: Result<T, StoreError>) -> Result<T::V, StoreError> {
    match r {
        Ok(t) => Ok(t@),
        Err(e) => Err(e),
    }
}

/// The store after an operation that returned `r`: the new state on success, the old one else.
pub open spec fn outcome(
    old_s: CatalogView,
    new_s: CatalogView,
    r: Result<(), StoreError>,
    expected: Result<CatalogView, StoreError>,
) -> bool {
    match expected {
        Ok(v) => r is Ok && new_s == v,
        Err(e) => r == Err::<(), StoreError>(e) && new_s == old_s,
    }
}

impl MediaStore {
    pub open spec fn wf(&self) -> bool {
        rows_wf(self@.rows) && rows_placed(self@.media_root, self@.rows)
    }

    /// Whether `path` is a file of tier `tier` under this store's media root.
    fn is_placed(&self, path: &str, tier: Tier) -> (r: bool)
        ensures
            r == placed(self@.media_root, path@, tier),
    {
        match file_name(path) {
            None => false,
            Some(name) => {
                let dir = join_path(self.media_root.as_str(), tier.name());
                let expected = join_path(dir.as_str(), name.as_str());
                expected == path.to_owned()
            },
        }
    }

    /// An empty catalog over the given media, trash and thumbnail roots.
    pub fn new(media_root: String, trash_root: String, thumbs_root: String) -> (r: MediaStore)
        ensures
            r.wf(),
            r@.media_root == media_root@,
            r@.trash_root == trash_root@,
            r@.thumbs_root == thumbs_root@,
            r@.rows == Seq::<PhotoView>::empty(),
    {
        let r = MediaStore { media_root, trash_root, thumbs_root, rows: Vec::new() };
        assert(r@.rows =~= Seq::<PhotoView>::empty());
        r
    }

    pub fn media_root(&self) -> (r: &str)
        ensures
            r@ == self@.media_root,
    {
        self.media_root.as_str()
    }

    pub fn trash_root(&self) -> (r: &str)
        ensures
            r@ == self@.trash_root,
    {
        self.trash_root.as_str()
    }

    pub fn thumbs_root(&self) -> (r: &str)
        ensures
            r@ == self@.thumbs_root,
    {
        self.thumbs_root.as_str()
    }

    pub fn len(&self) -> (r: usize)
        ensures
            r == self@.rows.len(),
    {
        self.rows.len()
    }

    fn find_id(&self, id: &str) -> (r: Option<usize>)
        requires
            self.wf(),
        ensures
            match r {
                Some(i) => id_index(self@.rows, id@) == Some(i as int),
                None => id_index(self@.rows, id@) is None,
            },
    {
        let ghost rows = self@.rows;
        let mut i: usize = 0;
        while i < self.rows.len()
            invariant
                rows == self@.rows,
                rows.len() == self.rows.len(),
                i <= rows.len(),
                rows_wf(rows),
                forall|j: int| 0 <= j < i ==> rows[j].id != id@,
            decreases self.rows.len() - i,
        {
            assert(rows[i as int] == self.rows[i as int]@);
            if text_eq(self.rows[i].id.as_str(), id) {
                assert(has_id(rows, id@));
                let ghost k = choose|k: int| 0 <= k < rows.len() && rows[k].id == id@;
                assert(k == i) by {
                    if k != i {
                        assert(k > i);
                    }
                }
                return Some(i);
            }
            i += 1;
        }
        None
    }

    fn find_active(&self, id: &str) -> (r: Option<usize>)
        requires
            self.wf(),
        ensures
            match r {
                Some(i) => active_index(self@.rows, id@) == Some(i as int),
                None => active_index(self@.rows, id@) is None,
            },
    {
        match self.find_id(id) {
            Some(i) => {
                assert(self@.rows[i as int] == self.rows[i as int]@);
                if self.rows[i].is_active() {
                    Some(i)
                } else {
                    None
                }
            },
            None => None,
        }
    }

    fn holds_active_hash(&self, hash: &str) -> (r: bool)
        ensures
            r == has_active_hash(self@.rows, hash@),
    {
        let ghost rows = self@.rows;
        let mut i: usize = 0;
        while i < self.rows.len()
            invariant
                rows == self@.rows,
                rows.len() == self.rows.len(),
                i <= rows.len(),
                forall|j: int| 0 <= j < i ==> !(is_active(rows[j]) && rows[j].hash == hash@),
            decreases self.rows.len() - i,
        {
            assert(rows[i as int] == self.rows[i as int]@);
            if self.rows[i].is_active() && text_eq(self.rows[i].hash.as_str(), hash) {
                return true;
            }
            i += 1;
        }
        false
    }

    /// The row with id `id`, active or in the trash.
    pub fn get(&self, id: &str) -> (r: Option<Photo>)
        requires
            self.wf(),
        ensures
            match id_index(self@.rows, id@) {
                Some(i) => r matches Some(p) && p@ == self@.rows[i],
                None => r is None,
            },
    {
        match self.find_id(id) {
            Some(i) => {
                assert(self@.rows[i as int] == self.rows[i as int]@);
                Some(self.rows[i].duplicate())
            },
            None => None,
        }
    }

    fn active_in_order(&self) -> (r: Vec<Photo>)
        ensures
            photos_view(r@) == active_rows(self@.rows),
    {
        let ghost rows = self@.rows;
        let mut out: Vec<Photo> = Vec::new();
        let mut i: usize = 0;
        assert(photos_view(out@) =~= active_rows(rows.subrange(0, 0)));
        while i < self.rows.len()
            invariant
                rows == self@.rows,
                rows.len() == self.rows.len(),
                i <= rows.len(),
                photos_view(out@) == active_rows(rows.subrange(0, i as int)),
            decreases self.rows.len() - i,
        {
            assert(rows[i as int] == self.rows[i as int]@);
            assert(rows.subrange(0, i + 1).drop_last() =~= rows.subrange(0, i as int));
            if self.rows[i].is_active() {
                let p = self.rows[i].duplicate();
                out.push(p);
                assert(photos_view(out@) =~= active_rows(rows.subrange(0, i as int)).push(
                    rows[i as int],
                ));
            }
            i += 1;
        }
        assert(rows.subrange(0, rows.len() as int) =~= rows);
        out
    }

    /// The standard listing: the active rows, most recently updated first (rows updated at the
    /// same time in catalog order); rows in the trash never appear.
    pub fn list_active(&self) -> (r: Vec<Photo>)
        ensures
            photos_view(r@) == active_listing(self@.rows),
    {
        let active = self.active_in_order();
        let ghost input = photos_view(active@);
        let mut out: Vec<Photo> = Vec::new();
        let mut i: usize = 0;
        assert(input.subrange(0, 0) =~= Seq::<PhotoView>::empty());
        assert(photos_view(out@) =~= Seq::<PhotoView>::empty());
        while i < active.len()
            invariant
                input == photos_view(active@),
                i <= active.len(),
                photos_view(out@) == by_recency(input.subrange(0, i as int)),
            decreases active.len() - i,
        {
            let x = active[i].duplicate();
            assert(x@ == input[i as int]);
            let mut p: usize = out.len();
            while p > 0 && out[p - 1].updated_at < x.updated_at
                invariant
                    p <= out.len(),
                    forall|j: int| p <= j < out.len() ==> out@[j].updated_at < x.updated_at,
                decreases p,
            {
                p -= 1;
            }
            let ghost before = photos_view(out@);
            proof {
                lemma_insert_by_recency_at(before, x@, p as int);
            }
            let ghost xv = x@;
            out.insert(p, x);
            assert(photos_view(out@) =~= before.insert(p as int, xv));
            assert(input.subrange(0, i + 1).drop_last() =~= input.subrange(0, i as int));
            i += 1;
        }
        assert(input.subrange(0, input.len() as int) =~= input);
        out
    }

    /// Adds a row; see [`insert_spec`].
    pub fn insert(&mut self, photo: Photo) -> (r: Result<(), StoreError>)
        requires
            old(self).wf(),
        ensures
            final(self).wf(),
            outcome(old(self)@, final(self)@, r, insert_spec(old(self)@, photo@)),
    {
        if self.find_id(photo.id.as_str()).is_some() {
            return Err(StoreError::DuplicateId);
        }
        if photo.is_active() && self.holds_active_hash(photo.hash.as_str()) {
            return Err(StoreError::DuplicateContent);
        }
        if photo.is_active() && !self.is_placed(photo.storage_path.as_str(), photo.tier) {
            return Err(StoreError::InvalidPath);
        }
        let ghost before = self@;
        let ghost p = photo@;
        self.rows.push(photo);
        assert(self@.rows =~= before.rows.push(p));
        assert(self@ == with_rows(before, before.rows.push(p)));
        assert(!has_id(before.rows, p.id));
        assert forall|i: int, j: int| 0 <= i < j < self@.rows.len() implies self@.rows[i].id
            != self@.rows[j].id by {
            if j == before.rows.len() {
                assert(self@.rows[i] == before.rows[i]);
            }
        }
        assert forall|i: int, j: int|
            0 <= i < j < self@.rows.len() && is_active(self@.rows[i]) && is_active(
                self@.rows[j],
            ) implies self@.rows[i].hash != self@.rows[j].hash by {
            if j == before.rows.len() {
                assert(self@.rows[i] == before.rows[i]);
            }
        }
        assert forall|i: int| 0 <= i < self@.rows.len() && is_active(#[trigger] self@.rows[i]) implies placed(
            self@.media_root,
            self@.rows[i].storage_path,
            self@.rows[i].tier,
        ) by {
            if i < before.rows.len() {
                assert(self@.rows[i] == before.rows[i]);
            }
        }
        Ok(())
    }

    /// Decides what ingesting `source` with content hash `hash` does, before any file is
    /// touched; `taken` holds the names already in the intake directory.
    pub fn plan_ingest(&self, source: &str, hash: &str, taken: &Vec<String>) -> (r: Result<
        IngestPlan,
        StoreError,
    >)
        requires
            self.wf(),
        ensures
            result_view(r) == plan_ingest_spec(self@, source@, hash@, taken.deep_view()),
    {
        if self.holds_active_hash(hash) {
            return Ok(IngestPlan::Duplicate);
        }
        match file_name(source) {
            None => Err(StoreError::InvalidPath),
            Some(name) => {
                let dir = join_path(self.media_root.as_str(), Tier::Bronze.name());
                let target = join_path(dir.as_str(), name.as_str());
                let dest = unique_path(target.as_str(), taken);
                Ok(IngestPlan::CopyTo { dest })
            },
        }
    }

    /// Records a photo whose bytes were copied to `dest`: a new active row in the intake tier.
    pub fn commit_ingest(
        &mut self,
        id: String,
        source: String,
        dest: String,
        hash: String,
        now: i64,
    ) -> (r: Result<(), StoreError>)
        requires
            old(self).wf(),
        ensures
            final(self).wf(),
            outcome(
                old(self)@,
                final(self)@,
                r,
                insert_spec(old(self)@, ingested_row(id@, source@, dest@, hash@, now)),
            ),
    {
        let photo = Photo {
            id,
            original_path: source,
            storage_path: dest,
            tier: Tier::Bronze,
            hash,
            created_at: now,
            updated_at: now,
            deleted_at: None,
        };
        self.insert(photo)
    }

    /// Validates a promotion of photo `id` to the tier named `tier` and computes where its file
    /// goes; `taken` holds the names already in that tier's directory. Nothing is changed.
    pub fn plan_promote(&self, id: &str, tier: &str, taken: &Vec<String>) -> (r: Result<
        PromotePlan,
        StoreError,
    >)
        requires
            self.wf(),
        ensures
            result_view(r) == plan_promote_spec(self@, id@, tier@, taken.deep_view()),
    {
        let t = match parse_tier(tier) {
            None => return Err(StoreError::InvalidTier),
            Some(t) => t,
        };
        let i = match self.find_active(id) {
            None => return Err(StoreError::NotFound),
            Some(i) => i,
        };
        assert(self@.rows[i as int] == self.rows[i as int]@);
        let from = self.rows[i].storage_path.as_str();
        match file_name(from) {
            None => Err(StoreError::InvalidPath),
            Some(name) => {
                let dir = join_path(self.media_root.as_str(), t.name());
                let to = join_path(dir.as_str(), name.as_str());
                let from = from.to_owned();
                if contains_name(taken, &name) && !(to == from) {
                    return Err(StoreError::DestinationExists);
                }
                Ok(PromotePlan { id: id.to_owned(), from, to, tier: t })
            },
        }
    }

    /// Records a promotion whose file move succeeded: new path, tier and update time.
    pub fn commit_promote(&mut self, plan: &PromotePlan, now: i64) -> (r: Result<(), StoreError>)
        requires
            old(self).wf(),
        ensures
            final(self).wf(),
            outcome(old(self)@, final(self)@, r, commit_promote_spec(old(self)@, plan@, now)),
    {
        let i = match self.find_active(plan.id.as_str()) {
            None => return Err(StoreError::NotFound),
            Some(i) => i,
        };
        if !self.is_placed(plan.to.as_str(), plan.tier) {
            return Err(StoreError::InvalidPath);
        }
        let ghost before = self@;
        let old_row = &self.rows[i];
        let row = Photo {
            id: old_row.id.clone(),
            original_path: old_row.original_path.clone(),
            storage_path: plan.to.clone(),
            tier: plan.tier,
            hash: old_row.hash.clone(),
            created_at: old_row.created_at,
            updated_at: now,
            deleted_at: old_row.deleted_at,
        };
        assert(before.rows[i as int] == self.rows[i as int]@);
        let ghost p = row@;
        self.rows.set(i, row);
        assert(self@.rows =~= before.rows.update(i as int, p));
        assert(self@ == with_rows(before, before.rows.update(i as int, p)));
        assert(rows_wf(self@.rows)) by {
            assert forall|a: int| 0 <= a < self@.rows.len() implies #[trigger] self@.rows[a].id
                == before.rows[a].id && self@.rows[a].hash == before.rows[a].hash && (is_active(
                self@.rows[a],
            ) == is_active(before.rows[a])) by {}
        }
        assert forall|a: int| 0 <= a < self@.rows.len() && is_active(#[trigger] self@.rows[a]) implies placed(
            self@.media_root,
            self@.rows[a].storage_path,
            self@.rows[a].tier,
        ) by {
            if a != i {
                assert(self@.rows[a] == before.rows[a]);
            }
        }
        Ok(())
    }

    /// Validates a deletion of photo `id` and computes where its file goes; `taken` holds the
    /// names already in the trash. Nothing is changed.
    pub fn plan_delete(&self, id: &str, permanent: bool, taken: &Vec<String>) -> (r: Result<
        DeletePlan,
        StoreError,
    >)
        requires
            self.wf(),
        ensures
            result_view(r) == plan_delete_spec(self@, id@, permanent, taken.deep_view()),
    {
        let i = match self.find_active(id) {
            None => return Err(StoreError::NotFound),
            Some(i) => i,
        };
        assert(self@.rows[i as int] == self.rows[i as int]@);
        let path = self.rows[i].storage_path.as_str();
        if permanent {
            return Ok(DeletePlan::Remove { id: id.to_owned(), path: path.to_owned() });
        }
        proof {
            reveal_strlit("photo");
        }
        let name = match file_name(path) {
            Some(n) => n,
            None => "photo".to_owned(),
        };
        assert(name@ == trash_name(path@));
        let target = join_path(self.trash_root.as_str(), name.as_str());
        let to = unique_path(target.as_str(), taken);
        Ok(DeletePlan::Trash { id: id.to_owned(), from: path.to_owned(), to })
    }

    /// Records a deletion whose file step is done: the row goes away, or is marked deleted
    /// with its new place in the trash.
    pub fn commit_delete(&mut self, plan: &DeletePlan, now: i64) -> (r: Result<(), StoreError>)
        requires
            old(self).wf(),
        ensures
            final(self).wf(),
            outcome(old(self)@, final(self)@, r, commit_delete_spec(old(self)@, plan@, now)),
    {
        let id = match plan {
            DeletePlan::Remove { id, .. } => id,
            DeletePlan::Trash { id, .. } => id,
        };
        assert(id@ == delete_plan_id(plan@));
        let i = match self.find_active(id.as_str()) {
            None => return Err(StoreError::NotFound),
            Some(i) => i,
        };
        let ghost before = self@;
        match plan {
            DeletePlan::Remove { .. } => {
                self.rows.remove(i);
                assert(self@.rows =~= before.rows.remove(i as int));
                assert(self@ == with_rows(before, before.rows.remove(i as int)));
                assert(rows_wf(self@.rows)) by {
                    assert forall|a: int| 0 <= a < self@.rows.len() implies #[trigger] self@.rows[a]
                        == before.rows[if a < i {
                        a
                    } else {
                        a + 1
                    }] by {}
                    assert forall|a: int, b: int| 0 <= a < b < self@.rows.len() implies self@.rows[a].id
                        != self@.rows[b].id by {
                        let a0 = if a < i { a } else { a + 1 };
                        let b0 = if b < i { b } else { b + 1 };
                        assert(self@.rows[a] == before.rows[a0]);
                        assert(self@.rows[b] == before.rows[b0]);
                    }
                    assert forall|a: int, b: int|
                        0 <= a < b < self@.rows.len() && is_active(self@.rows[a]) && is_active(
                            self@.rows[b],
                        ) implies self@.rows[a].hash != self@.rows[b].hash by {
                        let a0 = if a < i { a } else { a + 1 };
                        let b0 = if b < i { b } else { b + 1 };
                        assert(self@.rows[a] == before.rows[a0]);
                        assert(self@.rows[b] == before.rows[b0]);
                    }
                }
                assert forall|a: int| 0 <= a < self@.rows.len() && is_active(#[trigger] self@.rows[a]) implies placed(
                    self@.media_root,
                    self@.rows[a].storage_path,
                    self@.rows[a].tier,
                ) by {
                    let a0 = if a < i { a } else { a + 1 };
                    assert(self@.rows[a] == before.rows[a0]);
                }
            },
            DeletePlan::Trash { to, .. } => {
                let old_row = &self.rows[i];
                let row = Photo {
                    id: old_row.id.clone(),
                    original_path: old_row.original_path.clone(),
                    storage_path: to.clone(),
                    tier: old_row.tier,
                    hash: old_row.hash.clone(),
                    created_at: old_row.created_at,
                    updated_at: now,
                    deleted_at: Some(now),
                };
                assert(before.rows[i as int] == self.rows[i as int]@);
                let ghost p = row@;
                self.rows.set(i, row);
                assert(self@.rows =~= before.rows.update(i as int, p));
                assert(self@ == with_rows(before, before.rows.update(i as int, p)));
                assert(rows_wf(self@.rows)) by {
                    assert forall|a: int| 0 <= a < self@.rows.len() implies #[trigger] self@.rows[a].id
                        == before.rows[a].id && self@.rows[a].hash == before.rows[a].hash && (
                    is_active(self@.rows[a]) ==> is_active(before.rows[a])) by {}
                }
                assert forall|a: int| 0 <= a < self@.rows.len() && is_active(#[trigger] self@.rows[a]) implies placed(
                    self@.media_root,
                    self@.rows[a].storage_path,
                    self@.rows[a].tier,
                ) by {
                    if a != i {
                        assert(self@.rows[a] == before.rows[a]);
                    }
                }
            },
        }
        Ok(())
    }

    /// Where the thumbnail of active photo `id` is made from and stored.
    pub fn plan_thumbnail(&self, id: &str) -> (r: Result<ThumbnailPlan, StoreError>)
        requires
            self.wf(),
        ensures
            match active_index(self@.rows, id@) {
                Some(i) => r matches Ok(p) && p.source@ == self@.rows[i].storage_path && p.dest@
                    == thumbnail_file(self@.thumbs_root, id@),
                None => r == Err::<ThumbnailPlan, StoreError>(StoreError::NotFound),
            },
    {
        let i = match self.find_active(id) {
            None => return Err(StoreError::NotFound),
            Some(i) => i,
        };
        assert(self@.rows[i as int] == self.rows[i as int]@);
        proof {
            reveal_strlit(".jpg");
        }
        let mut file = id.to_owned();
        file.append(".jpg");
        assert(file@ =~= id@ + seq!['.', 'j', 'p', 'g']);
        let dest = join_path(self.thumbs_root.as_str(), file.as_str());
        Ok(ThumbnailPlan { source: self.rows[i].storage_path.clone(), dest })
    }
}

} // verus!
