use vstd::prelude::*;

verus! {

/// A named collection (album) of photos, plain or driven by rules.
#[derive(Debug)]
pub struct Collection {
    pub id: String,
    pub name: String,
    pub description: Option<String>,
    pub is_public: bool,
    pub cover_photo: Option<String>,
    pub is_smart_collection: bool,
    pub smart_rules: Option<String>,
    pub created_at: String,
    pub updated_at: String,
}

/// Membership of one photo in one collection.
#[derive(Debug)]
pub struct AlbumPhoto {
    pub id: String,
    pub collection_id: String,
    pub photo_id: String,
    pub added_at: String,
}

pub struct CreateCollectionRequest {
    pub name: String,
    pub description: Option<String>,
    pub is_public: bool,
    pub cover_photo: Option<String>,
    pub is_smart_collection: bool,
    pub smart_rules: Option<String>,
}

/// Fields to change on a collection; `None` keeps the current value.
pub struct UpdateCollectionRequest {
    pub name: Option<String>,
    pub description: Option<String>,
    pub is_public: Option<bool>,
    pub cover_photo: Option<String>,
    pub smart_rules: Option<String>,
}

#[derive(Debug)]
pub struct CreatePersonRequest {
    pub name: String,
    pub birthdate: Option<String>,
    pub notes: Option<String>,
    pub is_public: bool,
}

/// Fields to change on a person; `None` keeps the current value.
#[derive(Debug)]
pub struct UpdatePersonRequest {
    pub name: Option<String>,
    pub birthdate: Option<String>,
    pub notes: Option<String>,
    pub is_public: Option<bool>,
    pub selected_thumbnail_face_id: Option<String>,
}

#[derive(Debug)]
pub struct MergePeopleRequest {
    pub source_person_id: String,
    pub target_person_id: String,
    pub keep_source_data: bool,
}

} // verus!
