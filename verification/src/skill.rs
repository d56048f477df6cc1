//! Skills: metadata validation, frontmatter framing, and the record store.
//! The markdown file format is framed and validated here; turning the
//! frontmatter text into structured metadata is left to the caller.

use vstd::prelude::*;
use vstd::string::StringExecFns;
use vstd::string::StringSliceAdditionalSpecFns;

use crate::error::AppError;
use crate::pathname::str_eq;

verus! {

/// Metadata of one skill, as its frontmatter declares it.
pub struct SkillMetadata {
    pub name: String,
    pub description: String,
    pub license: Option<String>,
    pub compatibility: Option<String>,
    pub metadata: Option<Vec<(String, String)>>,
    pub allowed_tools: Option<Vec<String>>,
}

/// One parsed skill: metadata, full instructions, and where it lives.
pub struct Skill {
    pub metadata: SkillMetadata,
    pub instructions: String,
    pub path: String,
}

/// One stored skill record.
pub struct SkillRecord {
    pub id: String,
    pub name: String,
    pub description: String,
    pub metadata_json: Option<String>,
    pub path: String,
    pub created_at: i64,
    pub updated_at: i64,
}

/// A byte a skill name may hold: a lowercase letter, a digit, or a hyphen.
pub open spec fn spec_name_byte_ok(b: u8) -> bool {
    (97 <= b <= 122) || (48 <= b <= 57) || b == 45
}

/// A valid skill name: 1 to 64 bytes of lowercase letters, digits and
/// hyphens, neither starting nor ending with a hyphen, with no two hyphens
/// adjacent.
pub open spec fn spec_valid_name(name: Seq<u8>) -> bool {
    &&& 1 <= name.len() <= 64
    &&& forall|i: int| 0 <= i < name.len() ==> spec_name_byte_ok(#[trigger] name[i])
    &&& name[0] != 45
    &&& name[name.len() - 1] != 45
    &&& forall|i: int| #![trigger name[i]] 0 <= i < name.len() - 1 ==> !(name[i] == 45 && name[i + 1] == 45)
}

/// A valid skill description: 1 to 1024 bytes.
pub open spec fn spec_valid_description(d: Seq<u8>) -> bool {
    1 <= d.len() <= 1024
}

/// Framing and validation of skill files.
pub struct SkillParser;

impl SkillParser {
    /// Validate a skill's metadata: name shape and description length, byte
    /// for byte.
    pub fn validate_metadata(metadata: &SkillMetadata) -> (r: Result<(), AppError>)
        ensures
            r is Ok <==> (spec_valid_name(vstd::utf8::encode_utf8(metadata.name@))
                && spec_valid_description(vstd::utf8::encode_utf8(metadata.description@))),
            r matches Err(e) ==> e is Validation,
    {
        let name_str = metadata.name.as_str();
        let name = name_str.as_bytes();
        proof {
            assert(name@ == name_str.spec_bytes());
            assert(name@ == vstd::utf8::encode_utf8(metadata.name@));
        }
        if name.len() == 0 || name.len() > 64 {
            return Err(AppError::Validation("Skill name must be 1-64 characters".to_owned()));
        }
        let mut i: usize = 0;
        while i < name.len()
            invariant
                name@ == vstd::utf8::encode_utf8(metadata.name@),
                i <= name@.len(),
                forall|j: int| 0 <= j < i ==> spec_name_byte_ok(#[trigger] name@[j]),
            decreases name@.len() - i,
        {
            let b = name[i];
            if !((97 <= b && b <= 122) || (48 <= b && b <= 57) || b == 45) {
                proof {
                    let enc = vstd::utf8::encode_utf8(metadata.name@);
                    assert(name@ == enc);
                    assert(!spec_valid_name(enc)) by {
                        if spec_valid_name(enc) {
                            assert(spec_name_byte_ok(enc[i as int]));
                        }
                    }
                }
                return Err(
                    AppError::Validation(
                        "Skill name must contain only lowercase letters, numbers, and hyphens".to_owned(),
                    ),
                );
            }
            i += 1;
        }
        if name[0] == 45 || name[name.len() - 1] == 45 {
            return Err(
                AppError::Validation("Skill name cannot start or end with hyphen".to_owned()),
            );
        }
        let mut k: usize = 1;
        while k < name.len()
            invariant
                name@ == vstd::utf8::encode_utf8(metadata.name@),
                name@[0] != 45,
                name@[name@.len() - 1] != 45,
                forall|j: int| 0 <= j < name@.len() ==> spec_name_byte_ok(#[trigger] name@[j]),
                1 <= k,
                1 <= name@.len() <= 64,
                forall|j: int| #![trigger name@[j]] 0 <= j < k - 1 ==> !(name@[j] == 45 && name@[j
                    + 1] == 45),
            decreases name@.len() - k,
        {
            if name[k - 1] == 45 && name[k] == 45 {
                proof {
                    let enc = vstd::utf8::encode_utf8(metadata.name@);
                    assert(name@ == enc);
                    assert(!spec_valid_name(enc)) by {
                        if spec_valid_name(enc) {
                            assert(enc[k - 1] == name@[k - 1]);
                            assert(!(enc[k - 1] == 45 && enc[k - 1 + 1] == 45));
                        }
                    }
                }
                return Err(
                    AppError::Validation("Skill name cannot contain consecutive hyphens".to_owned()),
                );
            }
            k += 1;
        }
        let desc_str = metadata.description.as_str();
        let desc = desc_str.as_bytes();
        proof {
            assert(desc@ == desc_str.spec_bytes());
            assert(desc@ == vstd::utf8::encode_utf8(metadata.description@));
        }
        if desc.len() == 0 || desc.len() > 1024 {
            return Err(
                AppError::Validation("Skill description must be 1-1024 characters".to_owned()),
            );
        }
        Ok(())
    }

    /// Split a skill file into its frontmatter text and its trimmed
    /// instructions.  The file must open with the frontmatter fence and hold
    /// a closing fence on a later line.
    pub fn parse_frontmatter(content: &Vec<u8>) -> (r: Result<(Vec<u8>, Vec<u8>), AppError>)
        ensures
            r is Ok <==> (spec_opens_with_fence(content@) && spec_find_from(
                content@.skip(3),
                spec_fence_pat(),
                0,
            ) is Some),
            r matches Ok((y, ins)) ==> {
                let rest = content@.skip(3);
                let idx = spec_find_from(rest, spec_fence_pat(), 0)->Some_0;
                &&& y@ == rest.take(idx)
                &&& ins@ == spec_trim(rest.skip(idx + 4))
            },
            r matches Err(e) ==> e is Validation,
    {
        let fence = fence_pat();
        if content.len() < 3 || content[0] != 45 || content[1] != 45 || content[2] != 45 {
            proof {
                if spec_opens_with_fence(content@) {
                    assert(content@.subrange(0, 3)[0] == content@[0]);
                    assert(content@.subrange(0, 3)[1] == content@[1]);
                    assert(content@.subrange(0, 3)[2] == content@[2]);
                    assert(seq![45u8, 45u8, 45u8][0] == 45u8);
                    assert(seq![45u8, 45u8, 45u8][1] == 45u8);
                    assert(seq![45u8, 45u8, 45u8][2] == 45u8);
                }
            }
            return Err(
                AppError::Validation("SKILL.md must start with YAML frontmatter (---)".to_owned()),
            );
        }
        proof {
            assert(content@.subrange(0, 3) =~= seq![45u8, 45u8, 45u8]);
        }
        let rest = bytes_skip(content, 3);
        let idx = match find_sub(&rest, &fence) {
            Some(i) => i,
            None => {
                return Err(
                    AppError::Validation("Invalid frontmatter: missing closing ---".to_owned()),
                );
            },
        };
        proof {
            lemma_find_from_some(rest@, spec_fence_pat(), 0);
            assert(idx + 4 <= rest@.len());
        }
        let yaml = bytes_take(&rest, idx);
        let tail = bytes_skip(&rest, idx + 4);
        let instructions = trim_ascii(&tail);
        proof {
            assert(rest@.subrange(0, idx as int) =~= rest@.take(idx as int));
            assert(rest@.subrange(idx + 4, rest@.len() as int) =~= rest@.skip(idx + 4));
        }
        Ok((yaml, instructions))
    }
}

/// The file opens with the three-hyphen fence.
pub open spec fn spec_opens_with_fence(s: Seq<u8>) -> bool {
    s.len() >= 3 && s.subrange(0, 3) == seq![45u8, 45u8, 45u8]
}

/// The closing fence: a newline followed by three hyphens.
pub open spec fn spec_fence_pat() -> Seq<u8> {
    seq![10u8, 45u8, 45u8, 45u8]
}

fn fence_pat() -> (r: Vec<u8>)
    ensures
        r@ == spec_fence_pat(),
{
    let mut r: Vec<u8> = Vec::new();
    r.push(10);
    r.push(45);
    r.push(45);
    r.push(45);
    proof {
        assert(r@ =~= spec_fence_pat());
    }
    r
}

/// `pat` occurs in `s` at offset `i`.
pub open spec fn spec_match_at(s: Seq<u8>, pat: Seq<u8>, i: int) -> bool {
    0 <= i && i + pat.len() <= s.len() && s.subrange(i, i + pat.len()) == pat
}

/// First offset at or after `i` where `pat` occurs in `s`.
pub open spec fn spec_find_from(s: Seq<u8>, pat: Seq<u8>, i: int) -> Option<int>
    decreases s.len() - i,
{
    if i < 0 || i + pat.len() > s.len() {
        None
    } else if pat.len() == 0 {
        Some(i)
    } else if spec_match_at(s, pat, i) {
        Some(i)
    } else {
        spec_find_from(s, pat, i + 1)
    }
}

fn match_at(s: &Vec<u8>, pat: &Vec<u8>, i: usize) -> (r: bool)
    requires
        i + pat@.len() <= s@.len(),
    ensures
        r == spec_match_at(s@, pat@, i as int),
{
    let total = s.len();
    let mut j: usize = 0;
    while j < pat.len()
        invariant
            total == s@.len(),
            j <= pat@.len(),
            i + pat@.len() <= s@.len(),
            forall|k: int| 0 <= k < j ==> s@[i + k] == pat@[k],
        decreases pat@.len() - j,
    {
        if s[i + j] != pat[j] {
            proof {
                if spec_match_at(s@, pat@, i as int) {
                    assert(s@.subrange(i as int, i + pat@.len())[j as int] == s@[i + j]);
                }
            }
            return false;
        }
        j += 1;
    }
    proof {
        assert(s@.subrange(i as int, i + pat@.len()) =~= pat@);
    }
    true
}

/// First occurrence of `pat` in `s`, scanning from the start.
pub fn find_sub(s: &Vec<u8>, pat: &Vec<u8>) -> (r: Option<usize>)
    ensures
        match r {
            Some(i) => spec_find_from(s@, pat@, 0) == Some(i as int),
            None => spec_find_from(s@, pat@, 0) is None,
        },
{
    if pat.len() > s.len() {
        return None;
    }
    if pat.len() == 0 {
        return Some(0);
    }
    let limit = s.len() - pat.len();
    let mut i: usize = 0;
    while i <= limit
        invariant
            limit == s@.len() - pat@.len(),
            limit + 1 <= usize::MAX,
            pat@.len() >= 1,
            pat@.len() <= s@.len(),
            i <= limit + 1,
            spec_find_from(s@, pat@, 0) == spec_find_from(s@, pat@, i as int),
        decreases limit + 1 - i,
    {
        if match_at(s, pat, i) {
            return Some(i);
        }
        i += 1;
    }
    None
}

/// A found offset carries a match within bounds.
proof fn lemma_find_from_some(s: Seq<u8>, pat: Seq<u8>, i: int)
    requires
        spec_find_from(s, pat, i) is Some,
    ensures
        ({
            let j = spec_find_from(s, pat, i)->Some_0;
            &&& i <= j
            &&& j + pat.len() <= s.len()
        }),
    decreases s.len() - i,
{
    if !(i < 0 || i + pat.len() > s.len()) && pat.len() != 0 && !spec_match_at(s, pat, i) {
        lemma_find_from_some(s, pat, i + 1);
    }
}

/// ASCII whitespace.
pub open spec fn spec_is_ws(b: u8) -> bool {
    b == 32 || b == 9 || b == 10 || b == 13
}

/// The byte string with leading ASCII whitespace removed.
pub open spec fn spec_trim_start(s: Seq<u8>) -> Seq<u8>
    decreases s.len(),
{
    if s.len() > 0 && spec_is_ws(s[0]) {
        spec_trim_start(s.skip(1))
    } else {
        s
    }
}

/// The byte string with trailing ASCII whitespace removed.
pub open spec fn spec_trim_end(s: Seq<u8>) -> Seq<u8>
    decreases s.len(),
{
    if s.len() > 0 && spec_is_ws(s.last()) {
        spec_trim_end(s.drop_last())
    } else {
        s
    }
}

/// The byte string with ASCII whitespace removed at both ends.
pub open spec fn spec_trim(s: Seq<u8>) -> Seq<u8> {
    spec_trim_end(spec_trim_start(s))
}

/// Copy of `s` from offset `i` on; an offset past the end gives the empty
/// string, as the recursive definitions expect.
fn bytes_skip(s: &Vec<u8>, i: usize) -> (r: Vec<u8>)
    ensures
        i <= s@.len() ==> r@ == s@.skip(i as int),
        i > s@.len() ==> r@ == Seq::<u8>::empty(),
{
    let mut r: Vec<u8> = Vec::new();
    let mut j: usize = if i <= s.len() {
        i
    } else {
        s.len()
    };
    let start = j;
    while j < s.len()
        invariant
            start <= j <= s@.len(),
            r@ =~= s@.subrange(start as int, j as int),
        decreases s@.len() - j,
    {
        r.push(s[j]);
        proof {
            assert(r@ =~= s@.subrange(start as int, j + 1 as int));
        }
        j += 1;
    }
    proof {
        if i <= s@.len() {
            assert(s@.subrange(i as int, s@.len() as int) =~= s@.skip(i as int));
        } else {
            assert(s@.subrange(s@.len() as int, s@.len() as int) =~= Seq::<u8>::empty());
        }
    }
    r
}

/// Copy of the first `n` bytes of `s`.
fn bytes_take(s: &Vec<u8>, n: usize) -> (r: Vec<u8>)
    requires
        n <= s@.len(),
    ensures
        r@ == s@.take(n as int),
{
    let mut r: Vec<u8> = Vec::new();
    let mut j: usize = 0;
    while j < n
        invariant
            j <= n <= s@.len(),
            r@ =~= s@.subrange(0, j as int),
        decreases n - j,
    {
        r.push(s[j]);
        proof {
            assert(r@ =~= s@.subrange(0, j + 1 as int));
        }
        j += 1;
    }
    r
}

/// Copy of `s` with ASCII whitespace removed at both ends.
pub fn trim_ascii(s: &Vec<u8>) -> (r: Vec<u8>)
    ensures
        r@ == spec_trim(s@),
{
    let mut lo: usize = 0;
    proof {
        assert(s@.skip(0) =~= s@);
    }
    while lo < s.len() && (s[lo] == 32 || s[lo] == 9 || s[lo] == 10 || s[lo] == 13)
        invariant
            lo <= s@.len(),
            spec_trim_start(s@) == spec_trim_start(s@.skip(lo as int)),
        decreases s@.len() - lo,
    {
        proof {
            assert(s@.skip(lo as int)[0] == s@[lo as int]);
            assert(s@.skip(lo as int).skip(1) =~= s@.skip(lo + 1 as int));
        }
        lo += 1;
    }
    proof {
        if lo < s@.len() {
            assert(s@.skip(lo as int)[0] == s@[lo as int]);
        }
        assert(spec_trim_start(s@) =~= s@.skip(lo as int));
    }
    let mut hi: usize = s.len();
    proof {
        assert(s@.skip(lo as int).take(s@.len() - lo) =~= s@.skip(lo as int));
    }
    while hi > lo && (s[hi - 1] == 32 || s[hi - 1] == 9 || s[hi - 1] == 10 || s[hi - 1] == 13)
        invariant
            lo <= hi <= s@.len(),
            spec_trim_start(s@) == s@.skip(lo as int),
            spec_trim_end(s@.skip(lo as int)) == spec_trim_end(
                s@.skip(lo as int).take(hi - lo as int),
            ),
        decreases hi,
    {
        proof {
            let cur = s@.skip(lo as int).take(hi - lo as int);
            assert(cur.last() == s@[hi - 1]);
            assert(cur.drop_last() =~= s@.skip(lo as int).take(hi - 1 - lo as int));
        }
        hi -= 1;
    }
    proof {
        let cur = s@.skip(lo as int).take(hi - lo as int);
        if cur.len() > 0 {
            assert(cur.last() == s@[hi - 1]);
        }
        assert(spec_trim_end(cur) =~= cur);
        assert(spec_trim(s@) == s@.skip(lo as int).take(hi - lo as int));
    }
    let mut r: Vec<u8> = Vec::new();
    let mut j: usize = lo;
    while j < hi
        invariant
            lo <= j <= hi <= s@.len(),
            r@ =~= s@.subrange(lo as int, j as int),
        decreases hi - j,
    {
        r.push(s[j]);
        proof {
            assert(r@ =~= s@.subrange(lo as int, j + 1 as int));
        }
        j += 1;
    }
    proof {
        assert(r@ =~= s@.skip(lo as int).take(hi - lo as int));
    }
    r
}

/// Whether some record carries `id`.
pub open spec fn spec_has_id(s: Seq<SkillRecord>, id: Seq<char>) -> bool {
    exists|i: int| 0 <= i < s.len() && (#[trigger] s[i]).id@ == id
}

/// The index of the record carrying `id`; meaningful only under uniqueness.
pub open spec fn spec_idx_of(s: Seq<SkillRecord>, id: Seq<char>) -> int {
    choose|i: int| 0 <= i < s.len() && (#[trigger] s[i]).id@ == id
}

/// The stored skill records, keyed by id: save-or-replace, read, and delete.
pub struct SkillRepository {
    records: Vec<SkillRecord>,
}

impl View for SkillRepository {
    type V = Seq<SkillRecord>;

    closed spec fn view(&self) -> Seq<SkillRecord> {
        self.records@
    }
}

impl SkillRepository {
    /// No two records share an id.
    pub closed spec fn wf(self) -> bool {
        forall|i: int, j: int|
            0 <= i < j < self.records@.len() ==> (#[trigger] self.records@[i]).id@ != (
            #[trigger] self.records@[j]).id@
    }

    /// An empty store.
    pub fn new() -> (r: SkillRepository)
        ensures
            r.wf(),
            r@ == Seq::<SkillRecord>::empty(),
    {
        SkillRepository { records: Vec::new() }
    }

    /// Save or replace the record with the given id.
    pub fn upsert(&mut self, rec: SkillRecord) -> (r: Result<(), AppError>)
        requires
            old(self).wf(),
        ensures
            final(self).wf(),
            r is Ok,
            spec_has_id(old(self)@, rec.id@) ==> final(self)@ == old(self)@.update(
                spec_idx_of(old(self)@, rec.id@),
                rec,
            ),
            !spec_has_id(old(self)@, rec.id@) ==> final(self)@ == old(self)@.push(rec),
    {
        let ghost rid = rec.id@;
        let mut i: usize = 0;
        while i < self.records.len()
            invariant
                rid == rec.id@,
                self.wf(),
                self@ == old(self)@,
                i <= self.records@.len(),
                forall|j: int| 0 <= j < i ==> (#[trigger] self.records@[j]).id@ != rid,
            decreases self.records@.len() - i,
        {
            if str_eq(self.records[i].id.as_str(), rec.id.as_str()) {
                proof {
                    assert(self.records@[i as int].id@ == rid);
                    assert(spec_has_id(self@, rid));
                    assert(spec_idx_of(self@, rid) == i as int) by {
                        let k = spec_idx_of(self@, rid);
                        assert(0 <= k < self@.len() && self@[k].id@ == rid);
                    }
                }
                self.records[i] = rec;
                return Ok(());
            }
            i += 1;
        }
        proof {
            if spec_has_id(self@, rid) {
                let k = spec_idx_of(self@, rid);
                assert(0 <= k < self@.len() && self@[k].id@ == rid);
            }
        }
        let ghost s0 = self.records@;
        self.records.push(rec);
        proof {
            assert forall|i2: int, j2: int|
                0 <= i2 < j2 < self.records@.len() implies (#[trigger] self.records@[i2]).id@ != (
            #[trigger] self.records@[j2]).id@ by {
                if j2 == s0.len() {
                    assert(self.records@[i2] == s0[i2]);
                }
            }
        }
        Ok(())
    }

    /// All stored records, in storage order.
    pub fn get_all(&self) -> (r: &Vec<SkillRecord>)
        ensures
            r@ == self@,
    {
        &self.records
    }

    /// The record carrying `id`, if one is stored.
    pub fn get_by_id(&self, id: &str) -> (r: Option<&SkillRecord>)
        requires
            self.wf(),
        ensures
            match r {
                Some(rec) => spec_has_id(self@, id@) && *rec == self@[spec_idx_of(self@, id@)]
                    && rec.id@ == id@,
                None => !spec_has_id(self@, id@),
            },
    {
        let mut i: usize = 0;
        while i < self.records.len()
            invariant
                self.wf(),
                i <= self.records@.len(),
                forall|j: int| 0 <= j < i ==> (#[trigger] self.records@[j]).id@ != id@,
            decreases self.records@.len() - i,
        {
            if str_eq(self.records[i].id.as_str(), id) {
                proof {
                    assert(self.records@[i as int].id@ == id@);
                    assert(spec_idx_of(self@, id@) == i as int) by {
                        let k = spec_idx_of(self@, id@);
                        assert(0 <= k < self@.len() && self@[k].id@ == id@);
                    }
                }
                return Some(&self.records[i]);
            }
            i += 1;
        }
        proof {
            if spec_has_id(self@, id@) {
                let k = spec_idx_of(self@, id@);
                assert(0 <= k < self@.len() && self@[k].id@ == id@);
            }
        }
        None
    }

    /// Drop the record carrying `id`; an absent id is a no-op.
    pub fn delete(&mut self, id: &str) -> (r: Result<(), AppError>)
        requires
            old(self).wf(),
        ensures
            final(self).wf(),
            r is Ok,
            spec_has_id(old(self)@, id@) ==> final(self)@ == old(self)@.remove(
                spec_idx_of(old(self)@, id@),
            ),
            !spec_has_id(old(self)@, id@) ==> final(self)@ == old(self)@,
    {
        let mut i: usize = 0;
        while i < self.records.len()
            invariant
                self.wf(),
                self@ == old(self)@,
                i <= self.records@.len(),
                forall|j: int| 0 <= j < i ==> (#[trigger] self.records@[j]).id@ != id@,
            decreases self.records@.len() - i,
        {
            if str_eq(self.records[i].id.as_str(), id) {
                proof {
                    assert(self.records@[i as int].id@ == id@);
                    assert(spec_idx_of(self@, id@) == i as int) by {
                        let k = spec_idx_of(self@, id@);
                        assert(0 <= k < self@.len() && self@[k].id@ == id@);
                    }
                }
                let ghost s0 = self.records@;
                self.records.remove(i);
                proof {
                    assert forall|i2: int, j2: int|
                        0 <= i2 < j2 < self.records@.len() implies (
                    #[trigger] self.records@[i2]).id@ != (#[trigger] self.records@[j2]).id@ by {
                        let a0: int = if i2 < i { i2 } else { i2 + 1 };
                        let b0: int = if j2 < i { j2 } else { j2 + 1 };
                        assert(self.records@[i2] == s0[a0] && self.records@[j2] == s0[b0]);
                    }
                }
                return Ok(());
            }
            i += 1;
        }
        proof {
            if spec_has_id(self@, id@) {
                let k = spec_idx_of(self@, id@);
                assert(0 <= k < self@.len() && self@[k].id@ == id@);
            }
        }
        Ok(())
    }
}


/// One entry of the skills XML: the record's name, description and skill
/// file location.
pub open spec fn spec_skill_xml_entry(r: SkillRecord) -> Seq<char> {
    "  <skill>\n    <name>"@ + r.name@ + "</name>\n    <description>"@ + r.description@
        + "</description>\n    <location>"@ + r.path@ + "/SKILL.md</location>\n  </skill>\n"@
}

/// The XML entries for the requested ids, in request order; an id with no
/// record contributes nothing.
pub open spec fn spec_skill_xml_entries(s: Seq<SkillRecord>, ids: Seq<String>) -> Seq<char>
    decreases ids.len(),
{
    if ids.len() == 0 {
        Seq::empty()
    } else {
        spec_skill_xml_entries(s, ids.drop_last()) + (if spec_has_id(s, ids.last()@) {
            spec_skill_xml_entry(s[spec_idx_of(s, ids.last()@)])
        } else {
            Seq::<char>::empty()
        })
    }
}

/// The whole skills XML block, or the empty string for an empty request.
pub open spec fn spec_skills_xml(s: Seq<SkillRecord>, ids: Seq<String>) -> Seq<char> {
    if ids.len() == 0 {
        Seq::empty()
    } else {
        "<available_skills>\n"@ + spec_skill_xml_entries(s, ids) + "</available_skills>\n\n"@
            + "You have access to a set of skills you can use to help the user.\n"@
            + "When a task matches a skill's description, use the read_file tool to load the full instructions from the skill's SKILL.md file.\n"@
            + "Follow the instructions exactly as documented in the skill file.\n"@
    }
}

/// One entry of the skills markdown listing.
pub open spec fn spec_skill_md_entry(r: SkillRecord) -> Seq<char> {
    "- **"@ + r.name@ + "**: "@ + r.description@ + "\n  - Location: `"@ + r.path@
        + "/SKILL.md`\n"@
}

/// The markdown entries for the requested ids, in request order.
pub open spec fn spec_skill_md_entries(s: Seq<SkillRecord>, ids: Seq<String>) -> Seq<char>
    decreases ids.len(),
{
    if ids.len() == 0 {
        Seq::empty()
    } else {
        spec_skill_md_entries(s, ids.drop_last()) + (if spec_has_id(s, ids.last()@) {
            spec_skill_md_entry(s[spec_idx_of(s, ids.last()@)])
        } else {
            Seq::<char>::empty()
        })
    }
}

/// The whole skills markdown block, or the empty string for an empty request.
pub open spec fn spec_skills_markdown(s: Seq<SkillRecord>, ids: Seq<String>) -> Seq<char> {
    if ids.len() == 0 {
        Seq::empty()
    } else {
        "## Available Skills\n\n"@ + spec_skill_md_entries(s, ids) + "\n\n"@
            + "You have access to a set of skills you can use to help the user.\n"@
            + "When a task matches a skill's description, use the `read_file` tool to load the full instructions from the skill's `SKILL.md` file at the specified location.\n"@
            + "Follow the instructions exactly as documented in the skill file.\n"@
    }
}

impl SkillRepository {
    /// The system-prompt XML block for the requested skills: one entry per
    /// stored id, framed and followed by the fixed usage text; empty when
    /// nothing is requested.
    pub fn generate_skills_xml(&self, skill_ids: &Vec<String>) -> (r: String)
        requires
            self.wf(),
        ensures
            r@ == spec_skills_xml(self@, skill_ids@),
    {
        if skill_ids.len() == 0 {
            return String::new();
        }
        let mut xml = String::new();
        xml.append("<available_skills>\n");
        let mut i: usize = 0;
        proof {
            assert(skill_ids@.take(0) =~= Seq::<String>::empty());
        }
        while i < skill_ids.len()
            invariant
                self.wf(),
                i <= skill_ids@.len(),
                xml@ == "<available_skills>\n"@ + spec_skill_xml_entries(
                    self@,
                    skill_ids@.take(i as int),
                ),
            decreases skill_ids@.len() - i,
        {
            proof {
                assert(skill_ids@.take(i + 1 as int).drop_last() =~= skill_ids@.take(i as int));
                assert(skill_ids@.take(i + 1 as int).last() == skill_ids@[i as int]);
            }
            match self.get_by_id(skill_ids[i].as_str()) {
                Some(rec) => {
                    xml.append("  <skill>\n    <name>");
                    xml.append(rec.name.as_str());
                    xml.append("</name>\n    <description>");
                    xml.append(rec.description.as_str());
                    xml.append("</description>\n    <location>");
                    xml.append(rec.path.as_str());
                    xml.append("/SKILL.md</location>\n  </skill>\n");
                },
                None => {},
            }
            i += 1;
        }
        proof {
            assert(skill_ids@.take(skill_ids@.len() as int) =~= skill_ids@);
        }
        xml.append("</available_skills>\n\n");
        xml.append("You have access to a set of skills you can use to help the user.\n");
        xml.append(
            "When a task matches a skill's description, use the read_file tool to load the full instructions from the skill's SKILL.md file.\n",
        );
        xml.append("Follow the instructions exactly as documented in the skill file.\n");
        xml
    }

    /// The system-prompt markdown listing for the requested skills, with the
    /// fixed usage text; empty when nothing is requested.
    pub fn generate_skills_markdown(&self, skill_ids: &Vec<String>) -> (r: String)
        requires
            self.wf(),
        ensures
            r@ == spec_skills_markdown(self@, skill_ids@),
    {
        if skill_ids.len() == 0 {
            return String::new();
        }
        let mut markdown = String::new();
        markdown.append("## Available Skills\n\n");
        let mut i: usize = 0;
        proof {
            assert(skill_ids@.take(0) =~= Seq::<String>::empty());
        }
        while i < skill_ids.len()
            invariant
                self.wf(),
                i <= skill_ids@.len(),
                markdown@ == "## Available Skills\n\n"@ + spec_skill_md_entries(
                    self@,
                    skill_ids@.take(i as int),
                ),
            decreases skill_ids@.len() - i,
        {
            proof {
                assert(skill_ids@.take(i + 1 as int).drop_last() =~= skill_ids@.take(i as int));
                assert(skill_ids@.take(i + 1 as int).last() == skill_ids@[i as int]);
            }
            match self.get_by_id(skill_ids[i].as_str()) {
                Some(rec) => {
                    markdown.append("- **");
                    markdown.append(rec.name.as_str());
                    markdown.append("**: ");
                    markdown.append(rec.description.as_str());
                    markdown.append("\n  - Location: `");
                    markdown.append(rec.path.as_str());
                    markdown.append("/SKILL.md`\n");
                },
                None => {},
            }
            i += 1;
        }
        proof {
            assert(skill_ids@.take(skill_ids@.len() as int) =~= skill_ids@);
        }
        markdown.append("\n\n");
        markdown.append("You have access to a set of skills you can use to help the user.\n");
        markdown.append(
            "When a task matches a skill's description, use the `read_file` tool to load the full instructions from the skill's `SKILL.md` file at the specified location.\n",
        );
        markdown.append("Follow the instructions exactly as documented in the skill file.\n");
        markdown
    }
}

} // verus!
