//! Validation of user-supplied group fields: names, descriptions,
//! colors and comments.  Every validator trims its input first, as the
//! stored values are the trimmed ones.

use vstd::prelude::*;

verus! {

// ---------------------------------------------------------------------------
// Trimming
// ---------------------------------------------------------------------------

/// Whether a character has the Unicode `White_Space` property.  The
/// property is a fixed table, so it is named rather than written out.
pub uninterp spec fn is_unicode_whitespace(c: char) -> bool;

/// Relies on char::is_whitespace: whether a character has the Unicode
/// `White_Space` property, a function of the character alone.
#[verifier::external_body]
fn char_is_whitespace(c: char) -> (r: bool)
    ensures
        r == is_unicode_whitespace(c),
{
    c.is_whitespace()
}

/// `s` with leading whitespace removed.
pub open spec fn trim_start_spec(s: Seq<char>) -> Seq<char>
    decreases s.len(),
{
    if s.len() > 0 && is_unicode_whitespace(s[0]) {
        trim_start_spec(s.drop_first())
    } else {
        s
    }
}

/// `s` with trailing whitespace removed.
pub open spec fn trim_end_spec(s: Seq<char>) -> Seq<char>
    decreases s.len(),
{
    if s.len() > 0 && is_unicode_whitespace(s.last()) {
        trim_end_spec(s.drop_last())
    } else {
        s
    }
}

/// `s` with leading and trailing whitespace removed.
pub open spec fn trim_spec(s: Seq<char>) -> Seq<char> {
    trim_end_spec(trim_start_spec(s))
}

proof fn lemma_trim_start_range(s: Seq<char>, lo: int)
    requires
        0 <= lo <= s.len(),
        forall|j: int| 0 <= j < lo ==> is_unicode_whitespace(s[j]),
        lo == s.len() || !is_unicode_whitespace(s[lo]),
    ensures
        trim_start_spec(s) == s.subrange(lo, s.len() as int),
    decreases lo,
{
    if lo == 0 {
        assert(s.subrange(0, s.len() as int) =~= s);
    } else {
        lemma_trim_start_range(s.drop_first(), lo - 1);
        assert(s.drop_first().subrange(lo - 1, s.len() - 1) =~= s.subrange(lo, s.len() as int));
    }
}

proof fn lemma_trim_end_range(s: Seq<char>, hi: int)
    requires
        0 <= hi <= s.len(),
        forall|j: int| hi <= j < s.len() ==> is_unicode_whitespace(s[j]),
        hi == 0 || !is_unicode_whitespace(s[hi - 1]),
    ensures
        trim_end_spec(s) == s.subrange(0, hi),
    decreases s.len(),
{
    if hi == s.len() {
        assert(s.subrange(0, hi) =~= s);
    } else {
        lemma_trim_end_range(s.drop_last(), hi);
        assert(s.drop_last().subrange(0, hi) =~= s.subrange(0, hi));
    }
}

/// The trimmed copy of `s`.
pub fn trim_str(s: &str) -> (r: String)
    ensures
        r@ == trim_spec(s@),
{
    let n = s.unicode_len();
    let mut lo: usize = 0;
    while lo < n && char_is_whitespace(s.get_char(lo))
        invariant
            0 <= lo <= n,
            n == s@.len(),
            forall|j: int| 0 <= j < lo ==> is_unicode_whitespace(s@[j]),
        decreases n - lo,
    {
        lo = lo + 1;
    }
    let mut hi: usize = n;
    while hi > lo && char_is_whitespace(s.get_char(hi - 1))
        invariant
            lo <= hi <= n,
            n == s@.len(),
            forall|j: int| hi <= j < n ==> is_unicode_whitespace(s@[j]),
        decreases hi,
    {
        hi = hi - 1;
    }
    proof {
        lemma_trim_start_range(s@, lo as int);
        let q = s@.subrange(lo as int, n as int);
        assert forall|j: int| (hi - lo) <= j < q.len() implies is_unicode_whitespace(q[j]) by {
            assert(q[j] == s@[lo + j]);
        }
        lemma_trim_end_range(q, hi - lo as int);
        assert(q.subrange(0, hi - lo as int) =~= s@.subrange(lo as int, hi as int));
    }
    s.substring_char(lo, hi).to_owned()
}

// ---------------------------------------------------------------------------
// Field rules
// ---------------------------------------------------------------------------

/// A group name is valid when, after trimming, it has between 1 and
/// 100 characters.
pub open spec fn group_name_ok(name: Seq<char>) -> bool {
    1 <= trim_spec(name).len() <= 100
}

/// A description is valid when, after trimming, it has at most 500
/// characters; an empty one stands for no description.
pub open spec fn description_ok(d: Seq<char>) -> bool {
    trim_spec(d).len() <= 500
}

/// A comment is valid when, after trimming, it has between 1 and 500
/// characters.
pub open spec fn comment_ok(c: Seq<char>) -> bool {
    1 <= trim_spec(c).len() <= 500
}

/// Is `c` an ASCII hexadecimal digit?
pub open spec fn is_hex_digit(c: char) -> bool {
    ('0' <= c && c <= '9') || ('a' <= c && c <= 'f') || ('A' <= c && c <= 'F')
}

/// A color is valid when, after trimming, it is `#` followed by 3 or 6
/// hexadecimal digits.
pub open spec fn color_ok(color: Seq<char>) -> bool {
    let t = trim_spec(color);
    t.len() >= 1 && t[0] == '#' && (t.len() == 4 || t.len() == 7) && (forall|i: int|
        1 <= i < t.len() ==> is_hex_digit(#[trigger] t[i]))
}

// ---------------------------------------------------------------------------
// Validators
// ---------------------------------------------------------------------------

/// Check and trim a group name.
pub fn validate_group_name(name: &str) -> (r: Result<String, String>)
    ensures
        r is Ok <==> group_name_ok(name@),
        r matches Ok(t) ==> t@ == trim_spec(name@),
        trim_spec(name@).len() == 0 ==> (r matches Err(m) && m@ == "Group name cannot be empty"@),
        trim_spec(name@).len() > 100 ==> (r matches Err(m) && m@
            == "Group name is too long (max 100 characters)"@),
{
    let trimmed = trim_str(name);
    let len = trimmed.as_str().unicode_len();
    if len == 0 {
        Err("Group name cannot be empty".to_owned())
    } else if len > 100 {
        Err("Group name is too long (max 100 characters)".to_owned())
    } else {
        Ok(trimmed)
    }
}

/// Check and trim an optional description.  A missing or blank
/// description is stored as no description at all.
pub fn validate_group_description(description: &Option<String>) -> (r: Result<
    Option<String>,
    String,
>)
    ensures
        description is None ==> (r matches Ok(o) && o is None),
        description matches Some(d) ==> {
            let t = trim_spec(d@);
            &&& (r is Ok <==> t.len() <= 500)
            &&& t.len() > 500 ==> (r matches Err(m) && m@
                == "Description is too long (max 500 characters)"@)
            &&& t.len() == 0 ==> (r matches Ok(o) && o is None)
            &&& 1 <= t.len() <= 500 ==> (r matches Ok(o) && o matches Some(s) && s@ == t)
        },
{
    match description {
        None => Ok(None),
        Some(desc) => {
            let trimmed = trim_str(desc.as_str());
            let len = trimmed.as_str().unicode_len();
            if len > 500 {
                Err("Description is too long (max 500 characters)".to_owned())
            } else if len == 0 {
                Ok(None)
            } else {
                Ok(Some(trimmed))
            }
        },
    }
}

/// Check and trim a color code of the form `#RGB` or `#RRGGBB`.
pub fn validate_color(color: &str) -> (r: Result<String, String>)
    ensures
        r is Ok <==> color_ok(color@),
        r matches Ok(t) ==> t@ == trim_spec(color@),
        ({
            let t = trim_spec(color@);
            &&& !(t.len() >= 1 && t[0] == '#') ==> (r matches Err(m) && m@
                == "Invalid color format: must start with '#'"@)
            &&& (t.len() >= 1 && t[0] == '#' && !(t.len() == 4 || t.len() == 7)) ==> (r matches Err(
                m,
            ) && m@ == "Invalid color format: must be #RGB or #RRGGBB"@)
            &&& (t.len() >= 1 && t[0] == '#' && (t.len() == 4 || t.len() == 7) && !color_ok(
                color@,
            )) ==> (r matches Err(m) && m@
                == "Invalid color format: must contain only hexadecimal characters"@)
        }),
{
    let trimmed = trim_str(color);
    let n = trimmed.as_str().unicode_len();
    if n == 0 || trimmed.as_str().get_char(0) != '#' {
        return Err("Invalid color format: must start with '#'".to_owned());
    }
    if n != 4 && n != 7 {
        return Err("Invalid color format: must be #RGB or #RRGGBB".to_owned());
    }
    let mut i: usize = 1;
    while i < n
        invariant
            1 <= i <= n,
            n == trimmed@.len(),
            trimmed@ == trim_spec(color@),
            trimmed@[0] == '#',
            n == 4 || n == 7,
            forall|j: int| 1 <= j < i ==> is_hex_digit(#[trigger] trimmed@[j]),
        decreases n - i,
    {
        let c = trimmed.as_str().get_char(i);
        let hex = ('0' <= c && c <= '9') || ('a' <= c && c <= 'f') || ('A' <= c && c <= 'F');
        if !hex {
            return Err("Invalid color format: must contain only hexadecimal characters".to_owned());
        }
        i = i + 1;
    }
    Ok(trimmed)
}

/// Check and trim a comment.
pub fn validate_comment(comment: &str) -> (r: Result<String, String>)
    ensures
        r is Ok <==> comment_ok(comment@),
        r matches Ok(t) ==> t@ == trim_spec(comment@),
        trim_spec(comment@).len() == 0 ==> (r matches Err(m) && m@ == "Comment cannot be empty"@),
        trim_spec(comment@).len() > 500 ==> (r matches Err(m) && m@
            == "Comment is too long (max 500 characters)"@),
{
    let trimmed = trim_str(comment);
    let len = trimmed.as_str().unicode_len();
    if len == 0 {
        Err("Comment cannot be empty".to_owned())
    } else if len > 500 {
        Err("Comment is too long (max 500 characters)".to_owned())
    } else {
        Ok(trimmed)
    }
}

// ---------------------------------------------------------------------------
// Group records and inputs
// ---------------------------------------------------------------------------

/// One group row, with its member count.
#[derive(Debug)]
pub struct GroupData {
    pub id: i64,
    pub name: String,
    pub description: Option<String>,
    pub color: String,
    pub representative_image_id: Option<i64>,
    pub created_at: String,
    pub updated_at: String,
    pub image_count: i64,
}

/// The fields a caller supplies to create a group.
#[derive(Debug)]
pub struct CreateGroupInput {
    pub name: String,
    pub description: Option<String>,
    pub color: Option<String>,
    pub representative_image_id: Option<i64>,
}

/// The fields a caller supplies to update a group; absent fields stay
/// untouched.
#[derive(Debug)]
pub struct UpdateGroupInput {
    pub id: i64,
    pub name: Option<String>,
    pub description: Option<String>,
    pub color: Option<String>,
    pub representative_image_id: Option<i64>,
}

/// One comment on a group.
#[derive(Debug)]
pub struct GroupComment {
    pub id: i64,
    pub group_id: i64,
    pub comment: String,
    pub created_at: String,
}

/// The fields a caller supplies to add a group comment.
#[derive(Debug)]
pub struct AddCommentInput {
    pub group_id: i64,
    pub comment: String,
}

/// The default color given to a group created without one.
pub open spec fn default_color() -> Seq<char> {
    "#3b82f6"@
}

/// Validate every field of a group-creation input: the trimmed name,
/// the trimmed description (or none) and the trimmed color, which
/// defaults when absent.  Fields are checked in that order and the
/// first failure is reported.
pub fn validate_create_group(input: &CreateGroupInput) -> (r: Result<
    (String, Option<String>, String),
    String,
>)
    ensures
        r is Ok <==> group_name_ok(input.name@) && (input.description matches Some(d)
            ==> description_ok(d@)) && (input.color matches Some(c) ==> color_ok(c@)),
        r matches Ok(v) ==> {
            &&& v.0@ == trim_spec(input.name@)
            &&& (match input.description {
                Some(d) => if trim_spec(d@).len() == 0 {
                    v.1 is None
                } else {
                    v.1 matches Some(s) && s@ == trim_spec(d@)
                },
                None => v.1 is None,
            })
            &&& v.2@ == (match input.color {
                Some(c) => trim_spec(c@),
                None => default_color(),
            })
        },
{
    let name = match validate_group_name(input.name.as_str()) {
        Ok(n) => n,
        Err(e) => {
            return Err(e);
        },
    };
    let description = match validate_group_description(&input.description) {
        Ok(d) => d,
        Err(e) => {
            return Err(e);
        },
    };
    let color = match &input.color {
        Some(c) => match validate_color(c.as_str()) {
            Ok(c) => c,
            Err(e) => {
                return Err(e);
            },
        },
        None => "#3b82f6".to_owned(),
    };
    Ok((name, description, color))
}

} // verus!
