use vstd::prelude::*;

use crate::grouping::PhotoManager;
use crate::naming::{decimal, decimal_text};

verus! {

/// What a photo search may be narrowed by; every search leaves out photos in the trash.
#[derive(Debug)]
pub struct SearchFilters {
    pub person_id: Option<String>,
    pub tag_id: Option<String>,
    pub tier: Option<String>,
    pub date_from: Option<i64>,
    pub date_to: Option<i64>,
}

/// An SQL query over the catalog with its positional arguments, in order.
#[derive(Debug)]
pub struct SearchQuery {
    pub sql: String,
    pub args: Vec<String>,
}

/// Decimal text of a signed integer.
pub open spec fn signed_decimal(n: int) -> Seq<char> {
    if n < 0 {
        seq!['-'] + decimal((-n) as nat)
    } else {
        decimal(n as nat)
    }
}

/// `parts` joined with `sep` between each two of them.
pub open spec fn joined(parts: Seq<Seq<char>>, sep: Seq<char>) -> Seq<char>
    decreases parts.len(),
{
    if parts.len() == 0 {
        Seq::empty()
    } else if parts.len() == 1 {
        parts[0]
    } else {
        joined(parts.drop_last(), sep) + sep + parts.last()
    }
}

pub open spec fn opt_part<T>(o: Option<T>, part: Seq<Seq<char>>) -> Seq<Seq<char>> {
    if o is Some {
        part
    } else {
        Seq::empty()
    }
}

pub open spec fn opt_str(o: Option<String>) -> Seq<Seq<char>> {
    match o {
        Some(s) => seq![s@],
        None => Seq::empty(),
    }
}

pub open spec fn opt_int(o: Option<i64>) -> Seq<Seq<char>> {
    match o {
        Some(n) => seq![signed_decimal(n as int)],
        None => Seq::empty(),
    }
}

/// The conditions of a search, in order; the last one always excludes trashed photos.
pub open spec fn search_conditions(f: SearchFilters) -> Seq<Seq<char>> {
    opt_part(f.person_id, seq!["f.person_id = ?"@]) + opt_part(f.tier, seq!["p.tier = ?"@])
        + opt_part(f.tag_id, seq!["pt.tag_id = ?"@]) + opt_part(
        f.date_from,
        seq!["p.created_at >= ?"@],
    ) + opt_part(f.date_to, seq!["p.created_at <= ?"@]) + seq!["p.deleted_at IS NULL"@]
}

/// The query of a search: the active photos meeting every condition, most recently updated
/// first.
pub open spec fn search_sql(f: SearchFilters) -> Seq<char> {
    "SELECT DISTINCT p.id as id, p.storage_path as storage_path, p.tier as tier FROM photos p"@
        + (if f.person_id is Some {
        " JOIN faces f ON f.photo_id = p.id"@
    } else {
        Seq::empty()
    }) + (if f.tag_id is Some {
        " JOIN photo_tags pt ON pt.photo_id = p.id"@
    } else {
        Seq::empty()
    }) + " WHERE "@ + joined(search_conditions(f), " AND "@) + " ORDER BY p.updated_at DESC"@
}

/// The arguments of a search, one per `?` of its conditions.
pub open spec fn search_args(f: SearchFilters) -> Seq<Seq<char>> {
    opt_str(f.person_id) + opt_str(f.tier) + opt_str(f.tag_id) + opt_int(f.date_from) + opt_int(
        f.date_to,
    )
}

/// Decimal text of `n`.
pub fn signed_decimal_text(n: i64) -> (r: String)
    ensures
        r@ == signed_decimal(n as int),
{
    if n < 0 {
        proof {
            reveal_strlit("-");
        }
        let mag: u64 = if n == i64::MIN {
            9_223_372_036_854_775_808u64
        } else {
            (-n) as u64
        };
        let mut r = "-".to_owned();
        let d = decimal_text(mag);
        r.append(d.as_str());
        r
    } else {
        decimal_text(n as u64)
    }
}

fn push_condition(conds: &mut Vec<String>, cond: &str)
    ensures
        final(conds).deep_view() == old(conds).deep_view().push(cond@),
{
    conds.push(cond.to_owned());
    assert(final(conds).deep_view() =~= old(conds).deep_view().push(cond@));
}

fn push_arg(args: &mut Vec<String>, arg: String)
    ensures
        final(args).deep_view() == old(args).deep_view().push(arg@),
{
    let ghost a = arg@;
    args.push(arg);
    assert(final(args).deep_view() =~= old(args).deep_view().push(a));
}

/// `parts` joined with `sep`; see [`joined`].
pub fn join_with(parts: &Vec<String>, sep: &str) -> (r: String)
    ensures
        r@ == joined(parts.deep_view(), sep@),
{
    let mut r = String::new();
    let mut i: usize = 0;
    assert(parts.deep_view().subrange(0, 0) =~= Seq::<Seq<char>>::empty());
    while i < parts.len()
        invariant
            i <= parts.len(),
            r@ == joined(parts.deep_view().subrange(0, i as int), sep@),
        decreases parts.len() - i,
    {
        let ghost pre = parts.deep_view().subrange(0, i as int);
        let ghost next = parts.deep_view().subrange(0, i + 1);
        assert(next.drop_last() =~= pre);
        assert(next.last() == parts[i as int]@);
        if i > 0 {
            r.append(sep);
        } else {
            assert(r@ =~= Seq::<char>::empty());
        }
        r.append(parts[i].as_str());
        i += 1;
    }
    assert(parts.deep_view().subrange(0, parts.len() as int) =~= parts.deep_view());
    r
}

/// The SQL and arguments of a search with filters `f`; see [`search_sql`] and
/// [`search_args`].
pub fn search_query(f: &SearchFilters) -> (r: SearchQuery)
    ensures
        r.sql@ == search_sql(*f),
        r.args.deep_view() == search_args(*f),
{
    proof {
        reveal_strlit("SELECT DISTINCT p.id as id, p.storage_path as storage_path, p.tier as tier FROM photos p");
        reveal_strlit(" JOIN faces f ON f.photo_id = p.id");
        reveal_strlit(" JOIN photo_tags pt ON pt.photo_id = p.id");
        reveal_strlit(" WHERE ");
        reveal_strlit(" AND ");
        reveal_strlit(" ORDER BY p.updated_at DESC");
        reveal_strlit("f.person_id = ?");
        reveal_strlit("p.tier = ?");
        reveal_strlit("pt.tag_id = ?");
        reveal_strlit("p.created_at >= ?");
        reveal_strlit("p.created_at <= ?");
        reveal_strlit("p.deleted_at IS NULL");
    }
    let mut sql = "SELECT DISTINCT p.id as id, p.storage_path as storage_path, p.tier as tier FROM photos p".to_owned();
    let mut conds: Vec<String> = Vec::new();
    let mut args: Vec<String> = Vec::new();
    let ghost c0 = conds.deep_view();
    let ghost a0 = args.deep_view();
    assert(c0 =~= Seq::<Seq<char>>::empty());
    assert(a0 =~= Seq::<Seq<char>>::empty());
    if let Some(person) = &f.person_id {
        sql.append(" JOIN faces f ON f.photo_id = p.id");
        push_condition(&mut conds, "f.person_id = ?");
        push_arg(&mut args, person.clone());
    }
    let ghost c1 = conds.deep_view();
    let ghost a1 = args.deep_view();
    assert(c1 =~= opt_part(f.person_id, seq!["f.person_id = ?"@]));
    assert(a1 =~= opt_str(f.person_id));
    if let Some(tier) = &f.tier {
        push_condition(&mut conds, "p.tier = ?");
        push_arg(&mut args, tier.clone());
    }
    let ghost c2 = conds.deep_view();
    let ghost a2 = args.deep_view();
    assert(c2 =~= c1 + opt_part(f.tier, seq!["p.tier = ?"@]));
    assert(a2 =~= a1 + opt_str(f.tier));
    if let Some(tag) = &f.tag_id {
        sql.append(" JOIN photo_tags pt ON pt.photo_id = p.id");
        push_condition(&mut conds, "pt.tag_id = ?");
        push_arg(&mut args, tag.clone());
    }
    let ghost c3 = conds.deep_view();
    let ghost a3 = args.deep_view();
    assert(c3 =~= c2 + opt_part(f.tag_id, seq!["pt.tag_id = ?"@]));
    assert(a3 =~= a2 + opt_str(f.tag_id));
    if let Some(from) = f.date_from {
        push_condition(&mut conds, "p.created_at >= ?");
        push_arg(&mut args, signed_decimal_text(from));
    }
    let ghost c4 = conds.deep_view();
    let ghost a4 = args.deep_view();
    assert(c4 =~= c3 + opt_part(f.date_from, seq!["p.created_at >= ?"@]));
    assert(a4 =~= a3 + opt_int(f.date_from));
    if let Some(to) = f.date_to {
        push_condition(&mut conds, "p.created_at <= ?");
        push_arg(&mut args, signed_decimal_text(to));
    }
    let ghost c5 = conds.deep_view();
    assert(c5 =~= c4 + opt_part(f.date_to, seq!["p.created_at <= ?"@]));
    assert(args.deep_view() =~= a4 + opt_int(f.date_to));
    push_condition(&mut conds, "p.deleted_at IS NULL");
    assert(conds.deep_view() =~= search_conditions(*f));
    sql.append(" WHERE ");
    let clause = join_with(&conds, " AND ");
    sql.append(clause.as_str());
    sql.append(" ORDER BY p.updated_at DESC");
    SearchQuery { sql, args }
}

/// Filters of a search over file versions by their recorded metadata.
#[derive(Debug)]
pub struct PhotoSearchFilters {
    pub date_start: Option<String>,
    pub date_end: Option<String>,
    pub camera: Option<String>,
    pub tags: Option<Vec<String>>,
    pub ai_confidence_min: Option<i32>,
    pub location: Option<String>,
}

/// `%text%`: a LIKE pattern matching any value that contains `text`.
pub open spec fn containing(text: Seq<char>) -> Seq<char> {
    seq!['%'] + text + seq!['%']
}

pub open spec fn tag_clauses(tags: Option<Vec<String>>) -> Seq<char> {
    match tags {
        Some(t) => Seq::new(t@.len(), |i: int| " AND keywords LIKE ?"@).fold_left(
            Seq::<char>::empty(),
            |acc: Seq<char>, c: Seq<char>| acc + c,
        ),
        None => Seq::empty(),
    }
}

pub open spec fn tag_args(tags: Option<Vec<String>>) -> Seq<Seq<char>> {
    match tags {
        Some(t) => t.deep_view().map_values(|s: Seq<char>| containing(s)),
        None => Seq::empty(),
    }
}

/// The metadata search over file versions: every given filter narrows it.
pub open spec fn metadata_search_sql(f: PhotoSearchFilters) -> Seq<char> {
    "SELECT id, file_path, tier FROM file_versions WHERE 1=1"@ + (if f.date_start is Some {
        " AND created_at >= ?"@
    } else {
        Seq::empty()
    }) + (if f.date_end is Some {
        " AND created_at <= ?"@
    } else {
        Seq::empty()
    }) + (if f.camera is Some {
        " AND metadata LIKE ?"@
    } else {
        Seq::empty()
    }) + tag_clauses(f.tags) + (if f.ai_confidence_min is Some {
        " AND metadata LIKE ?"@
    } else {
        Seq::empty()
    }) + (if f.location is Some {
        " AND location LIKE ?"@
    } else {
        Seq::empty()
    })
}

/// The arguments of a metadata search, one per `?`, in order.
pub open spec fn metadata_search_args(f: PhotoSearchFilters) -> Seq<Seq<char>> {
    opt_str(f.date_start) + opt_str(f.date_end) + (match f.camera {
        Some(c) => seq![containing(c@)],
        None => Seq::empty(),
    }) + tag_args(f.tags) + (match f.ai_confidence_min {
        Some(n) => seq![containing("\"confidence\":"@ + signed_decimal(n as int))],
        None => Seq::empty(),
    }) + (match f.location {
        Some(l) => seq![containing(l@)],
        None => Seq::empty(),
    })
}

fn like_containing(text: &str) -> (r: String)
    ensures
        r@ == containing(text@),
{
    proof {
        reveal_strlit("%");
    }
    let mut r = "%".to_owned();
    r.append(text);
    r.append("%");
    r
}

impl PhotoManager {
    /// The SQL and arguments of a metadata search; see [`metadata_search_sql`] and
    /// [`metadata_search_args`].
    pub fn search_photos_query(f: &PhotoSearchFilters) -> (r: SearchQuery)
        ensures
            r.sql@ == metadata_search_sql(*f),
            r.args.deep_view() == metadata_search_args(*f),
    {
        proof {
            reveal_strlit("SELECT id, file_path, tier FROM file_versions WHERE 1=1");
            reveal_strlit(" AND created_at >= ?");
            reveal_strlit(" AND created_at <= ?");
            reveal_strlit(" AND metadata LIKE ?");
            reveal_strlit(" AND keywords LIKE ?");
            reveal_strlit(" AND location LIKE ?");
            reveal_strlit("\"confidence\":");
        }
        let mut sql = "SELECT id, file_path, tier FROM file_versions WHERE 1=1".to_owned();
        let mut args: Vec<String> = Vec::new();
        assert(args.deep_view() =~= Seq::<Seq<char>>::empty());
        let ghost s0 = sql@;
        if let Some(start) = &f.date_start {
            sql.append(" AND created_at >= ?");
            push_arg(&mut args, start.clone());
        }
        if let Some(end) = &f.date_end {
            sql.append(" AND created_at <= ?");
            push_arg(&mut args, end.clone());
        }
        if let Some(camera) = &f.camera {
            sql.append(" AND metadata LIKE ?");
            push_arg(&mut args, like_containing(camera.as_str()));
        }
        let ghost s3 = sql@;
        let ghost a3 = args.deep_view();
        assert(a3 =~= opt_str(f.date_start) + opt_str(f.date_end) + (match f.camera {
            Some(c) => seq![containing(c@)],
            None => Seq::<Seq<char>>::empty(),
        }));
        if let Some(tags) = &f.tags {
            let mut i: usize = 0;
            assert(tags.deep_view().subrange(0, 0).map_values(|s: Seq<char>| containing(s)) =~= Seq::<Seq<char>>::empty());
            assert(Seq::new(0, |j: int| " AND keywords LIKE ?"@).fold_left(Seq::<char>::empty(), |acc: Seq<char>, c: Seq<char>| acc + c) =~= Seq::<char>::empty());
            while i < tags.len()
                invariant
                    i <= tags.len(),
                    sql@ == s3 + Seq::new(i as nat, |j: int| " AND keywords LIKE ?"@).fold_left(
                        Seq::<char>::empty(),
                        |acc: Seq<char>, c: Seq<char>| acc + c,
                    ),
                    args.deep_view() == a3 + tags.deep_view().subrange(0, i as int).map_values(
                        |s: Seq<char>| containing(s),
                    ),
                decreases tags.len() - i,
            {
                let ghost cl = Seq::new(i as nat, |j: int| " AND keywords LIKE ?"@);
                let ghost cl2 = Seq::new((i + 1) as nat, |j: int| " AND keywords LIKE ?"@);
                assert(cl2.drop_last() =~= cl);
                sql.append(" AND keywords LIKE ?");
                push_arg(&mut args, like_containing(tags[i].as_str()));
                assert(tags.deep_view().subrange(0, i + 1).map_values(|s: Seq<char>| containing(s))
                    =~= tags.deep_view().subrange(0, i as int).map_values(|s: Seq<char>| containing(s)).push(
                    containing(tags[i as int]@),
                ));
                i += 1;
            }
            assert(tags.deep_view().subrange(0, tags.len() as int) =~= tags.deep_view());
        }
        assert(sql@ =~= s3 + tag_clauses(f.tags));
        if let Some(conf) = f.ai_confidence_min {
            sql.append(" AND metadata LIKE ?");
            let mut pat = "\"confidence\":".to_owned();
            let d = signed_decimal_text(conf as i64);
            pat.append(d.as_str());
            push_arg(&mut args, like_containing(pat.as_str()));
        }
        if let Some(location) = &f.location {
            sql.append(" AND location LIKE ?");
            push_arg(&mut args, like_containing(location.as_str()));
        }
        assert(sql@ =~= metadata_search_sql(*f));
        assert(args.deep_view() =~= metadata_search_args(*f));
        SearchQuery { sql, args }
    }
}

} // verus!
