//! Documents: a project's pages, arranged in a tree by parent links.
//!
//! The request handlers read and write the database; what they decide is
//! here, as functions of the request and of the project's documents as read.
//! Document ids are unique within a project (they are primary keys); a
//! lookup by id finds the document with that id.
use vstd::prelude::*;

use crate::doc_tree::{
    detect_document_cycle_groups, find_last_index, group_lists, is_cycle_detection, is_cycle_group, is_strict_ancestor, is_descendant_of,
    last_index_of, lemma_last_index_of, on_cycle, reaches, would_create_document_cycle,
};
use crate::error::{fails_with, ApiError};
use crate::text::{
    clone_opt, compare_text, is_blank, is_blank_str, is_kebab, is_kebab_str, lemma_text_less_total,
    lemma_text_less_trans, opt_view, owned, str_eq, text_less, trim, trim_str, views,
};

verus! {

/// A document as stored for a project.
#[derive(Debug)]
pub struct DocumentResponse {
    pub id: String,
    pub workspace_id: String,
    pub project_id: String,
    pub parent_document_id: Option<String>,
    pub slug: String,
    pub title: String,
    pub body_format: String,
    pub body_md: String,
    pub status: String,
    pub version: i32,
    pub created_at: String,
    pub updated_at: String,
}

/// A request to create a document.
#[derive(Debug)]
pub struct CreateDocumentRequest {
    pub slug: String,
    pub title: String,
    pub body_md: String,
    pub parent_document_id: Option<String>,
    pub body_format: String,
    pub status: String,
}

/// A request to change a document; absent fields stay as they are.
/// `parent_document_id` is `Some(None)` to detach the document from its parent.
#[derive(Debug)]
pub struct UpdateDocumentRequest {
    pub version: i32,
    pub slug: Option<String>,
    pub title: Option<String>,
    pub body_md: Option<String>,
    pub parent_document_id: Option<Option<String>>,
    pub body_format: Option<String>,
    pub status: Option<String>,
}

/// What a cycle repair did: the documents detached from their parents and
/// the cycles they broke.
#[derive(Debug)]
pub struct RepairDocumentCyclesResponse {
    pub repaired_document_ids: Vec<String>,
    pub cycle_groups: Vec<Vec<String>>,
}

/// A request to move a document under another one (or to the top level).
#[derive(Debug)]
pub struct MoveDocumentRequest {
    pub target_parent_document_id: Option<String>,
}

/// The body format a new document gets when the request names none.
pub fn default_body_format() -> (r: String)
    ensures
        r@ == "markdown"@,
{
    owned("markdown")
}

/// The status a new document gets when the request names none.
pub fn default_status() -> (r: String)
    ensures
        r@ == "draft"@,
{
    owned("draft")
}

// ---------------------------------------------------------------------------
// Field rules
// ---------------------------------------------------------------------------

/// What is wrong with a slug, if anything.
pub open spec fn slug_problem(slug: Seq<char>) -> Option<Seq<char>> {
    if slug.len() == 0 {
        Some("slug must not be empty"@)
    } else if !is_kebab(slug) {
        Some("slug must be lowercase kebab-case (a-z, 0-9, hyphens; no leading/trailing hyphen)"@)
    } else {
        None
    }
}

/// What is wrong with a body format, if anything.
pub open spec fn body_format_problem(f: Seq<char>) -> Option<Seq<char>> {
    if f == "markdown"@ {
        None
    } else {
        Some("body_format must be markdown"@)
    }
}

/// What is wrong with a document status, if anything.
pub open spec fn status_problem(s: Seq<char>) -> Option<Seq<char>> {
    if s == "draft"@ || s == "published"@ || s == "archived"@ {
        None
    } else {
        Some("status must be one of: draft, published, archived"@)
    }
}

/// What is wrong with a title, if anything.
pub open spec fn title_problem(t: Seq<char>) -> Option<Seq<char>> {
    if is_blank(t) {
        Some("title must not be empty"@)
    } else {
        None
    }
}

/// `Ok` where there is no problem, else a validation error with the problem as message.
pub open spec fn validated(r: Result<(), ApiError>, problem: Option<Seq<char>>, request_id: Seq<char>) -> bool {
    match problem {
        Some(m) => fails_with(r, "validation_error"@, request_id, m),
        None => r is Ok,
    }
}

pub fn validate_slug(slug: &str, request_id: &str) -> (r: Result<(), ApiError>)
    ensures
        validated(r, slug_problem(slug@), request_id@),
{
    if slug.unicode_len() == 0 {
        return Err(ApiError::validation_error(request_id, "slug must not be empty"));
    }
    if !is_kebab_str(slug) {
        return Err(
            ApiError::validation_error(
                request_id,
                "slug must be lowercase kebab-case (a-z, 0-9, hyphens; no leading/trailing hyphen)",
            ),
        );
    }
    Ok(())
}

pub fn validate_body_format(body_format: &str, request_id: &str) -> (r: Result<(), ApiError>)
    ensures
        validated(r, body_format_problem(body_format@), request_id@),
{
    if str_eq(body_format, "markdown") {
        Ok(())
    } else {
        Err(ApiError::validation_error(request_id, "body_format must be markdown"))
    }
}

pub fn validate_status(status: &str, request_id: &str) -> (r: Result<(), ApiError>)
    ensures
        validated(r, status_problem(status@), request_id@),
{
    if str_eq(status, "draft") || str_eq(status, "published") || str_eq(status, "archived") {
        Ok(())
    } else {
        Err(ApiError::validation_error(request_id, "status must be one of: draft, published, archived"))
    }
}

fn validate_title(title: &str, request_id: &str) -> (r: Result<(), ApiError>)
    ensures
        validated(r, title_problem(title@), request_id@),
{
    if is_blank_str(title) {
        Err(ApiError::validation_error(request_id, "title must not be empty"))
    } else {
        Ok(())
    }
}

/// The first problem among the fields of a create request, in the order
/// title, slug, body format, status.
pub open spec fn create_problem(body: CreateDocumentRequest) -> Option<Seq<char>> {
    if title_problem(body.title@) is Some {
        title_problem(body.title@)
    } else if slug_problem(body.slug@) is Some {
        slug_problem(body.slug@)
    } else if body_format_problem(body.body_format@) is Some {
        body_format_problem(body.body_format@)
    } else {
        status_problem(body.status@)
    }
}

/// Checks the fields of a create request before anything is looked up.
pub fn validate_create_document(body: &CreateDocumentRequest, request_id: &str) -> (r: Result<(), ApiError>)
    ensures
        validated(r, create_problem(*body), request_id@),
{
    validate_title(body.title.as_str(), request_id)?;
    validate_slug(body.slug.as_str(), request_id)?;
    validate_body_format(body.body_format.as_str(), request_id)?;
    validate_status(body.status.as_str(), request_id)
}

/// The row to insert for a new document.
#[derive(Debug)]
pub struct NewDocument {
    pub parent_document_id: Option<String>,
    pub slug: String,
    pub title: String,
    pub body_format: String,
    pub body_md: String,
    pub status: String,
    pub version: i32,
}

/// The row for a valid create request, given whether the named parent was
/// found in the project: a parent that was not found is `not_found`.  The
/// title is stored trimmed and the new document starts at version 1.
pub fn new_document(body: &CreateDocumentRequest, parent_found: bool, request_id: &str) -> (r: Result<NewDocument, ApiError>)
    ensures
        body.parent_document_id is Some && !parent_found ==> fails_with(
            r,
            "not_found"@,
            request_id@,
            "parent document not found in this project"@,
        ),
        body.parent_document_id is None || parent_found ==> (r matches Ok(n) && {
            &&& opt_view(n.parent_document_id) == opt_view(body.parent_document_id)
            &&& n.slug@ == body.slug@
            &&& n.title@ == trim(body.title@)
            &&& n.body_format@ == body.body_format@
            &&& n.body_md@ == body.body_md@
            &&& n.status@ == body.status@
            &&& n.version == 1
        }),
{
    if body.parent_document_id.is_some() && !parent_found {
        return Err(ApiError::not_found(request_id, "parent document not found in this project"));
    }
    Ok(NewDocument {
        parent_document_id: clone_opt(&body.parent_document_id),
        slug: body.slug.clone(),
        title: owned(trim_str(body.title.as_str())),
        body_format: body.body_format.clone(),
        body_md: body.body_md.clone(),
        status: body.status.clone(),
        version: 1,
    })
}

// ---------------------------------------------------------------------------
// Update
// ---------------------------------------------------------------------------

/// Whether a document with id `id` is among `docs`.
pub open spec fn has_document(docs: Seq<DocumentResponse>, id: Seq<char>) -> bool {
    last_index_of(docs, id) >= 0
}

/// The document with id `id` (meaningful where it is among `docs`).
pub open spec fn document_of(docs: Seq<DocumentResponse>, id: Seq<char>) -> DocumentResponse {
    docs[last_index_of(docs, id)]
}

/// The first problem with the fields of an update request, in the order
/// slug, title, body format, status.
pub open spec fn update_field_problem(body: UpdateDocumentRequest) -> Option<Seq<char>> {
    if body.slug is Some && slug_problem(body.slug->0@) is Some {
        slug_problem(body.slug->0@)
    } else if body.title is Some && title_problem(body.title->0@) is Some {
        title_problem(body.title->0@)
    } else if body.body_format is Some && body_format_problem(body.body_format->0@) is Some {
        body_format_problem(body.body_format->0@)
    } else if body.status is Some && status_problem(body.status->0@) is Some {
        status_problem(body.status->0@)
    } else {
        None
    }
}

/// Why an update of document `d` is refused, as an error code and message,
/// or `None` where it goes ahead.
pub open spec fn update_error(docs: Seq<DocumentResponse>, d: Seq<char>, body: UpdateDocumentRequest) -> Option<(Seq<char>, Seq<char>)> {
    if update_field_problem(body) is Some {
        Some(("validation_error"@, update_field_problem(body)->0))
    } else if !has_document(docs, d) {
        Some(("not_found"@, "document not found"@))
    } else if document_of(docs, d).version != body.version {
        Some(("conflict"@, "document version is stale; reload before updating"@))
    } else {
        match body.parent_document_id {
            Some(Some(p)) => if p@ == d {
                Some(("validation_error"@, "document cannot be its own parent"@))
            } else if !has_document(docs, p@) {
                Some(("not_found"@, "parent document not found in this project"@))
            } else if reaches(docs, p@, d) {
                Some(("validation_error"@, "document cannot become a descendant of itself"@))
            } else {
                None
            },
            _ => None,
        }
    }
}

/// The parent document `d` has after an update that goes ahead.
pub open spec fn updated_parent(docs: Seq<DocumentResponse>, d: Seq<char>, body: UpdateDocumentRequest) -> Option<Seq<char>> {
    match body.parent_document_id {
        Some(Some(p)) => Some(p@),
        Some(None) => None,
        None => opt_view(document_of(docs, d).parent_document_id),
    }
}

/// The change an accepted update makes: the fields to set (absent ones are
/// kept), the parent the document ends up with, the version the stored
/// document must still have for the write to apply, and the version it gets.
#[derive(Debug)]
pub struct DocumentUpdate {
    pub slug: Option<String>,
    pub title: Option<String>,
    pub body_md: Option<String>,
    pub body_format: Option<String>,
    pub status: Option<String>,
    pub parent_document_id: Option<String>,
    pub expected_version: i32,
    pub new_version: i32,
}

fn validate_update_fields(body: &UpdateDocumentRequest, request_id: &str) -> (r: Result<(), ApiError>)
    ensures
        validated(r, update_field_problem(*body), request_id@),
{
    if let Some(slug) = &body.slug {
        validate_slug(slug.as_str(), request_id)?;
    }
    if let Some(title) = &body.title {
        validate_title(title.as_str(), request_id)?;
    }
    if let Some(f) = &body.body_format {
        validate_body_format(f.as_str(), request_id)?;
    }
    if let Some(s) = &body.status {
        validate_status(s.as_str(), request_id)?;
    }
    Ok(())
}

/// Decides an update of document `document_id` among the project's
/// documents: the field checks, the document must exist and still be at the
/// version the client read, and a new parent must be another document of the
/// project that does not have this one among its ancestors.  An accepted
/// update moves the document to the next version.
pub fn plan_update_document(
    documents: &Vec<DocumentResponse>,
    document_id: &String,
    body: &UpdateDocumentRequest,
    request_id: &str,
) -> (r: Result<DocumentUpdate, ApiError>)
    requires
        body.version < i32::MAX,
    ensures
        match update_error(documents@, document_id@, *body) {
            Some((code, message)) => fails_with(r, code, request_id@, message),
            None => r matches Ok(u) && {
                &&& opt_view(u.parent_document_id) == updated_parent(documents@, document_id@, *body)
                &&& opt_view(u.slug) == opt_view(body.slug)
                &&& opt_view(u.title) == (match body.title {
                    Some(t) => Some(trim(t@)),
                    None => None,
                })
                &&& opt_view(u.body_md) == opt_view(body.body_md)
                &&& opt_view(u.body_format) == opt_view(body.body_format)
                &&& opt_view(u.status) == opt_view(body.status)
                &&& u.expected_version == body.version
                &&& u.new_version == body.version + 1
            },
        },
{
    validate_update_fields(body, request_id)?;
    proof {
        lemma_last_index_of(documents@, document_id@);
    }
    let current = match find_last_index(documents, document_id) {
        Some(i) => i,
        None => {
            return Err(ApiError::not_found(request_id, "document not found"));
        },
    };
    if documents[current].version != body.version {
        return Err(ApiError::conflict(request_id, "document version is stale; reload before updating"));
    }
    let parent_document_id = match &body.parent_document_id {
        Some(Some(parent_id)) => {
            if *parent_id == *document_id {
                return Err(ApiError::validation_error(request_id, "document cannot be its own parent"));
            }
            if find_last_index(documents, parent_id).is_none() {
                return Err(ApiError::not_found(request_id, "parent document not found in this project"));
            }
            if would_create_document_cycle(documents, document_id, parent_id) {
                return Err(ApiError::validation_error(request_id, "document cannot become a descendant of itself"));
            }
            Some(parent_id.clone())
        },
        Some(None) => None,
        None => clone_opt(&documents[current].parent_document_id),
    };
    let title = match &body.title {
        Some(t) => Some(owned(trim_str(t.as_str()))),
        None => None,
    };
    Ok(DocumentUpdate {
        slug: clone_opt(&body.slug),
        title,
        body_md: clone_opt(&body.body_md),
        body_format: clone_opt(&body.body_format),
        status: clone_opt(&body.status),
        parent_document_id,
        expected_version: body.version,
        new_version: body.version + 1,
    })
}

// ---------------------------------------------------------------------------
// Move
// ---------------------------------------------------------------------------

/// The ids, in list order, of the documents whose parent is `d`.
pub open spec fn child_ids(docs: Seq<DocumentResponse>, d: Seq<char>) -> Seq<Seq<char>>
    decreases docs.len(),
{
    if docs.len() == 0 {
        Seq::empty()
    } else {
        let init = child_ids(docs.drop_last(), d);
        if opt_view(docs.last().parent_document_id) == Some(d) {
            init.push(docs.last().id@)
        } else {
            init
        }
    }
}

/// The move lands `d` under one of its own descendants.
pub open spec fn moves_into_descendant(docs: Seq<DocumentResponse>, d: Seq<char>, target: Option<Seq<char>>) -> bool {
    match target {
        Some(p) => is_strict_ancestor(docs, d, p),
        None => false,
    }
}

/// Why a move of `d` under `target` is refused, or `None` where it goes ahead.
pub open spec fn move_error(docs: Seq<DocumentResponse>, d: Seq<char>, target: Option<Seq<char>>) -> Option<(Seq<char>, Seq<char>)> {
    if !has_document(docs, d) {
        Some(("not_found"@, "document not found"@))
    } else {
        match target {
            Some(p) => if p == d {
                Some(("validation_error"@, "document cannot be its own parent"@))
            } else if !has_document(docs, p) {
                Some(("not_found"@, "parent document not found in this project"@))
            } else if opt_view(document_of(docs, d).parent_document_id) != target
                && !moves_into_descendant(docs, d, target) && reaches(docs, p, d) {
                Some(("validation_error"@, "document cannot become a descendant of itself"@))
            } else {
                None
            },
            None => None,
        }
    }
}

/// What an accepted move does.
#[derive(Debug)]
pub enum DocumentMove {
    /// The document already has the requested parent; nothing is written.
    Unchanged,
    /// Set the document's parent to `target_parent_document_id`; first give
    /// each of `direct_child_ids` the parent `children_parent_document_id`.
    Reparent {
        target_parent_document_id: Option<String>,
        direct_child_ids: Vec<String>,
        children_parent_document_id: Option<String>,
    },
}

fn child_ids_exec(documents: &Vec<DocumentResponse>, d: &String) -> (r: Vec<String>)
    ensures
        views(r@) == child_ids(documents@, d@),
{
    let mut out: Vec<String> = Vec::new();
    let mut i: usize = 0;
    assert(documents@.take(0) =~= Seq::<DocumentResponse>::empty());
    assert(views(out@) =~= Seq::<Seq<char>>::empty());
    while i < documents.len()
        invariant
            i <= documents.len(),
            views(out@) == child_ids(documents@.take(i as int), d@),
        decreases documents.len() - i,
    {
        assert(documents@.take(i + 1).drop_last() == documents@.take(i as int));
        let is_child = match &documents[i].parent_document_id {
            Some(p) => *p == *d,
            None => false,
        };
        if is_child {
            let ghost before = views(out@);
            out.push(documents[i].id.clone());
            assert(views(out@) =~= before.push(documents@[i as int].id@));
        }
        i = i + 1;
    }
    assert(documents@.take(documents.len() as int) == documents@);
    out
}

/// Decides a move of document `document_id` among the project's documents.
/// The target must be another document of the project.  A move to the
/// parent the document already has changes nothing.  A move under one of the
/// document's own descendants first hands the document's direct children to
/// its current parent, so that the subtree stays attached and no cycle forms.
pub fn plan_move_document(
    documents: &Vec<DocumentResponse>,
    document_id: &String,
    body: &MoveDocumentRequest,
    request_id: &str,
) -> (r: Result<DocumentMove, ApiError>)
    ensures
        match move_error(documents@, document_id@, opt_view(body.target_parent_document_id)) {
            Some((code, message)) => fails_with(r, code, request_id@, message),
            None => r matches Ok(m) && if opt_view(document_of(documents@, document_id@).parent_document_id)
                == opt_view(body.target_parent_document_id) {
                m is Unchanged
            } else {
                m matches DocumentMove::Reparent {
                    target_parent_document_id,
                    direct_child_ids,
                    children_parent_document_id,
                } && {
                    &&& opt_view(target_parent_document_id) == opt_view(body.target_parent_document_id)
                    &&& views(direct_child_ids@) == (if moves_into_descendant(
                        documents@,
                        document_id@,
                        opt_view(body.target_parent_document_id),
                    ) {
                        child_ids(documents@, document_id@)
                    } else {
                        Seq::empty()
                    })
                    &&& opt_view(children_parent_document_id) == opt_view(
                        document_of(documents@, document_id@).parent_document_id,
                    )
                }
            },
        },
{
    proof {
        lemma_last_index_of(documents@, document_id@);
    }
    let current = match find_last_index(documents, document_id) {
        Some(i) => i,
        None => {
            return Err(ApiError::not_found(request_id, "document not found"));
        },
    };
    if let Some(parent_id) = &body.target_parent_document_id {
        if *parent_id == *document_id {
            return Err(ApiError::validation_error(request_id, "document cannot be its own parent"));
        }
        if find_last_index(documents, parent_id).is_none() {
            return Err(ApiError::not_found(request_id, "parent document not found in this project"));
        }
    }
    let same_parent = match (&documents[current].parent_document_id, &body.target_parent_document_id) {
        (Some(a), Some(b)) => *a == *b,
        (None, None) => true,
        _ => false,
    };
    if same_parent {
        return Ok(DocumentMove::Unchanged);
    }
    let into_descendant = match &body.target_parent_document_id {
        Some(parent_id) => is_descendant_of(documents, document_id, parent_id),
        None => false,
    };
    let direct_child_ids = if into_descendant {
        child_ids_exec(documents, document_id)
    } else {
        let v: Vec<String> = Vec::new();
        assert(views(v@) =~= Seq::<Seq<char>>::empty());
        v
    };
    if !into_descendant {
        if let Some(parent_id) = &body.target_parent_document_id {
            if would_create_document_cycle(documents, document_id, parent_id) {
                return Err(ApiError::validation_error(request_id, "document cannot become a descendant of itself"));
            }
        }
    }
    Ok(DocumentMove::Reparent {
        target_parent_document_id: clone_opt(&body.target_parent_document_id),
        direct_child_ids,
        children_parent_document_id: clone_opt(&documents[current].parent_document_id),
    })
}

// ---------------------------------------------------------------------------
// Cycle repair
// ---------------------------------------------------------------------------

/// When the document `id` was last updated, if it is among `docs`.
pub open spec fn updated_of(docs: Seq<DocumentResponse>, id: Seq<char>) -> Option<Seq<char>> {
    if has_document(docs, id) {
        Some(document_of(docs, id).updated_at@)
    } else {
        None
    }
}

/// Order on optional text: absent first, then by text.
pub open spec fn opt_text_less(a: Option<Seq<char>>, b: Option<Seq<char>>) -> bool {
    match (a, b) {
        (None, Some(_)) => true,
        (Some(x), Some(y)) => text_less(x, y),
        _ => false,
    }
}

/// The repair order on ids: by last update (an unknown document first), then by id.
pub open spec fn repair_less(docs: Seq<DocumentResponse>, x: Seq<char>, y: Seq<char>) -> bool {
    ||| opt_text_less(updated_of(docs, x), updated_of(docs, y))
    ||| (updated_of(docs, x) == updated_of(docs, y) && text_less(x, y))
}

/// `k` is the position the repair picks in `g`: no later-ordered id comes
/// before it, and every id after it is ordered strictly before it (the last of
/// the greatest).
pub open spec fn is_repair_choice(docs: Seq<DocumentResponse>, g: Seq<Seq<char>>, k: int) -> bool {
    &&& 0 <= k < g.len()
    &&& forall|j: int| 0 <= j < k ==> !repair_less(docs, g[k], #[trigger] g[j])
    &&& forall|j: int| k < j < g.len() ==> repair_less(docs, #[trigger] g[j], g[k])
}

/// `t` is the id the repair picks in the group `g`.
pub open spec fn is_repair_target(docs: Seq<DocumentResponse>, g: Seq<String>, t: Seq<char>) -> bool {
    exists|k: int| is_repair_choice(docs, views(g), k) && t == g[k]@
}

proof fn lemma_repair_order(docs: Seq<DocumentResponse>, x: Seq<char>, y: Seq<char>, z: Seq<char>)
    ensures
        x != y ==> repair_less(docs, x, y) || repair_less(docs, y, x),
        !(repair_less(docs, x, y) && repair_less(docs, y, x)),
        !repair_less(docs, x, x),
        repair_less(docs, x, y) && repair_less(docs, y, z) ==> repair_less(docs, x, z),
        !repair_less(docs, y, x) && !repair_less(docs, z, y) ==> !repair_less(docs, z, x),
{
    lemma_text_less_total(x, y);
    lemma_text_less_total(y, z);
    lemma_text_less_total(x, z);
    lemma_text_less_total(x, x);
    let (ux, uy, uz) = (updated_of(docs, x), updated_of(docs, y), updated_of(docs, z));
    if let Some(a) = ux {
        lemma_text_less_total(a, a);
    }
    if let (Some(a), Some(b)) = (ux, uy) {
        lemma_text_less_total(a, b);
    }
    if let (Some(a), Some(b)) = (uy, uz) {
        lemma_text_less_total(a, b);
    }
    if let (Some(a), Some(b)) = (ux, uz) {
        lemma_text_less_total(a, b);
    }
    if let (Some(a), Some(b), Some(c)) = (ux, uy, uz) {
        if text_less(a, b) && text_less(b, c) {
            lemma_text_less_trans(a, b, c);
        }
        if text_less(c, b) && text_less(b, a) {
            lemma_text_less_trans(c, b, a);
        }
    }
    if text_less(x, y) && text_less(y, z) {
        lemma_text_less_trans(x, y, z);
    }
    if text_less(z, y) && text_less(y, x) {
        lemma_text_less_trans(z, y, x);
    }
}

fn updated_at_exec(documents: &Vec<DocumentResponse>, id: &String) -> (r: Option<String>)
    ensures
        opt_view(r) == updated_of(documents@, id@),
{
    proof {
        lemma_last_index_of(documents@, id@);
    }
    match find_last_index(documents, id) {
        Some(i) => Some(documents[i].updated_at.clone()),
        None => None,
    }
}

fn repair_less_exec(documents: &Vec<DocumentResponse>, x: &String, y: &String) -> (r: bool)
    ensures
        r == repair_less(documents@, x@, y@),
{
    let ux = updated_at_exec(documents, x);
    let uy = updated_at_exec(documents, y);
    proof {
        lemma_text_less_total(x@, y@);
    }
    match (&ux, &uy) {
        (None, Some(_)) => true,
        (Some(_), None) => false,
        (Some(a), Some(b)) => {
            let c = compare_text(a.as_str(), b.as_str());
            if c != 0 {
                c == -1
            } else {
                compare_text(x.as_str(), y.as_str()) == -1
            }
        },
        (None, None) => compare_text(x.as_str(), y.as_str()) == -1,
    }
}

/// The document whose parent link a repair clears to break the cycle `cycle_group`:
/// the most recently updated one, ties going to the greatest id.
pub fn choose_cycle_repair_target(cycle_group: &Vec<String>, documents: &Vec<DocumentResponse>) -> (r: String)
    requires
        cycle_group.len() >= 1,
    ensures
        is_repair_target(documents@, cycle_group@, r@),
{
    let ghost g = views(cycle_group@);
    let mut best: usize = 0;
    let mut i: usize = 1;
    while i < cycle_group.len()
        invariant
            g == views(cycle_group@),
            1 <= i <= cycle_group.len(),
            best < i,
            forall|j: int| 0 <= j < best ==> !repair_less(documents@, g[best as int], #[trigger] g[j]),
            forall|j: int| best < j < i ==> repair_less(documents@, #[trigger] g[j], g[best as int]),
        decreases cycle_group.len() - i,
    {
        if !repair_less_exec(documents, &cycle_group[i], &cycle_group[best]) {
            proof {
                assert forall|j: int| 0 <= j < i implies !repair_less(documents@, g[i as int], #[trigger] g[j]) by {
                    lemma_repair_order(documents@, g[j], g[best as int], g[i as int]);
                    if j > best {
                        lemma_repair_order(documents@, g[j], g[best as int], g[i as int]);
                        lemma_repair_order(documents@, g[i as int], g[best as int], g[j]);
                    }
                }
            }
            best = i;
        }
        i = i + 1;
    }
    let r = cycle_group[best].clone();
    assert(is_repair_choice(documents@, g, best as int));
    assert(g[best as int] == cycle_group@[best as int]@);
    r
}

/// The lists of a repair: `groups` are the cycles as detection lists them
/// (see `is_cycle_detection`), and `targets[gi]` is the id picked in `groups[gi]`.
pub open spec fn is_repair_plan(docs: Seq<DocumentResponse>, groups: Seq<Seq<String>>, targets: Seq<Seq<char>>) -> bool {
    &&& targets.len() == groups.len()
    &&& is_cycle_detection(docs, groups)
    &&& forall|gi: int| 0 <= gi < groups.len() ==> is_repair_target(docs, #[trigger] groups[gi], targets[gi])
}

/// Finds the project's cycles and, for each, the document to detach.
pub fn plan_cycle_repair(documents: &Vec<DocumentResponse>) -> (r: RepairDocumentCyclesResponse)
    ensures
        is_repair_plan(documents@, group_lists(r.cycle_groups@), views(r.repaired_document_ids@)),
{
    let cycle_groups = detect_document_cycle_groups(documents);
    proof {
        reveal(is_cycle_detection);
        let gl = group_lists(cycle_groups@);
        assert forall|j: int| 0 <= j < cycle_groups.len() implies is_cycle_group(documents@, #[trigger] cycle_groups@[j]@) by {
            assert(gl[j] == cycle_groups@[j]@);
        }
    }
    let mut repaired: Vec<String> = Vec::new();
    let mut gi: usize = 0;
    while gi < cycle_groups.len()
        invariant
            gi <= cycle_groups.len(),
            repaired.len() == gi,
            is_cycle_detection(documents@, group_lists(cycle_groups@)),
            forall|j: int| 0 <= j < cycle_groups.len() ==> is_cycle_group(documents@, #[trigger] cycle_groups@[j]@),
            forall|j: int| 0 <= j < gi ==> is_repair_target(documents@, #[trigger] cycle_groups@[j]@, repaired@[j]@),
        decreases cycle_groups.len() - gi,
    {
        assert(is_cycle_group(documents@, cycle_groups@[gi as int]@));
        let t = choose_cycle_repair_target(&cycle_groups[gi], documents);
        let ghost before = repaired@;
        repaired.push(t);
        proof {
            assert forall|j: int|
                0 <= j < gi + 1 implies is_repair_target(documents@, #[trigger] cycle_groups@[j]@, repaired@[j]@) by {
                if j < gi {
                    assert(repaired@[j] == before[j]);
                } else {
                    assert(repaired@[j] == t);
                }
            }
        }
        gi = gi + 1;
    }
    proof {
        let gl = group_lists(cycle_groups@);
        assert forall|gi: int| 0 <= gi < gl.len() implies is_repair_target(documents@, #[trigger] gl[gi], views(repaired@)[gi]) by {
            assert(gl[gi] == cycle_groups@[gi]@);
        }
    }
    RepairDocumentCyclesResponse { repaired_document_ids: repaired, cycle_groups }
}

/// The document statuses: a status is accepted exactly when it is draft,
/// published or archived, a refused one is answered with a message that names
/// all three, and the status a new document gets by default is accepted.
pub proof fn law_document_statuses(s: Seq<char>)
    ensures
        status_problem(s) is None <==> (s == "draft"@ || s == "published"@ || s == "archived"@),
        status_problem(s) is Some ==> status_problem(s)->0 == "status must be one of: draft, published, archived"@,
        status_problem("draft"@) is None,
{
}

} // verus!
