//! The context store: categorized notes the workers read and write. The
//! store itself lives on disk and is loaded and saved by thin callers;
//! this model holds the notes in memory, keyed by category and slug.

use vstd::prelude::*;
use vstd::string::StringExecFns;

use crate::text::str_eq;
use crate::text::str_le;

verus! {

/// Why a context operation was refused.
#[derive(Debug)]
pub enum ContextError {
    /// Not one of the five categories.
    UnknownCategory(String),
    /// No note under that category and slug.
    Missing(String),
}

/// A listing entry: where one note sits.
#[derive(Debug, Clone, PartialEq)]
pub struct ContextEntry {
    pub category: String,
    pub slug: String,
    pub path: String,
}

/// One stored note.
#[derive(Debug, Clone, PartialEq)]
pub struct ContextNote {
    pub category: String,
    pub slug: String,
    pub content: String,
}

/// The in-memory context store.
#[derive(Debug, Clone, PartialEq)]
pub struct ContextManager {
    pub notes: Vec<ContextNote>,
}

/// One of the five context categories.
pub open spec fn valid_category(c: Seq<char>) -> bool {
    c == "decisions"@ || c == "gotchas"@ || c == "patterns"@ || c == "poc"@ || c == "references"@
}

/// `i` is the first note under `(category, slug)`.
pub open spec fn is_first_note(ns: Seq<ContextNote>, category: Seq<char>, slug: Seq<char>, i: int) -> bool {
    &&& 0 <= i < ns.len()
    &&& ns[i].category@ == category
    &&& ns[i].slug@ == slug
    &&& forall|j: int|
        0 <= j < i ==> !((#[trigger] ns[j]).category@ == category && ns[j].slug@ == slug)
}

/// Some note sits under `(category, slug)`.
pub open spec fn has_note(ns: Seq<ContextNote>, category: Seq<char>, slug: Seq<char>) -> bool {
    exists|i: int|
        0 <= i < ns.len() && (#[trigger] ns[i]).category@ == category && ns[i].slug@ == slug
}

/// A listing is faithful: every entry names a stored note of the
/// category, every stored note of the category is listed, and the slugs
/// rise lexicographically.
pub open spec fn listing_ok(ns: Seq<ContextNote>, category: Seq<char>, v: Seq<ContextEntry>) -> bool {
    &&& forall|k: int|
        0 <= k < v.len() ==> has_note(ns, category, (#[trigger] v[k]).slug@) && v[k].category@
            == category
    &&& forall|i: int|
        0 <= i < ns.len() && (#[trigger] ns[i]).category@ == category ==> exists|k: int|
            0 <= k < v.len() && (#[trigger] v[k]).slug@ == ns[i].slug@
    &&& forall|k1: int, k2: int|
        0 <= k1 < k2 < v.len() ==> crate::text::lex_le((#[trigger] v[k1]).slug@, (#[trigger] v[k2]).slug@)
}

/// Tags joined by a comma and a space, as in the stored front matter.
pub open spec fn tags_joined(ts: Seq<&str>, end: int) -> Seq<char>
    decreases end,
{
    if end <= 0 {
        Seq::empty()
    } else if end == 1 {
        ts[0]@
    } else {
        tags_joined(ts, end - 1) + ", "@ + ts[end - 1]@
    }
}

/// Check a category name against the five known ones.
pub fn validate_category(category: &str) -> (r: bool)
    ensures
        r == valid_category(category@),
{
    str_eq(category, "decisions") || str_eq(category, "gotchas") || str_eq(category, "patterns")
        || str_eq(category, "poc") || str_eq(category, "references")
}

/// The five category names, in listing order.
pub fn categories() -> (r: Vec<&'static str>)
    ensures
        r@.len() == 5,
        forall|k: int| 0 <= k < 5 ==> valid_category((#[trigger] r@[k])@),
{
    let mut v: Vec<&'static str> = Vec::new();
    v.push("decisions");
    v.push("gotchas");
    v.push("patterns");
    v.push("poc");
    v.push("references");
    v
}

/// Uppercase the first character of an ASCII word; everything after the
/// first character stands unchanged.
pub fn capitalize(s: &str) -> (r: String)
    ensures
        r@.len() == s@.len(),
        s@.len() > 0 ==> r@.subrange(1, s@.len() as int) == s@.subrange(1, s@.len() as int),
        s@.len() > 0 ==> r@[0] as int == (if 97 <= s@[0] as int <= 122 {
            s@[0] as int - 32
        } else {
            s@[0] as int
        }),
{
    let n = s.unicode_len();
    if n == 0 {
        return String::new();
    }
    let first = s.get_char(0) as u32;
    let mut out = String::new();
    if 97 <= first && first <= 122 {
        out.append(upper_char_str((first - 32) as u8));
        let rest = s.substring_char(1, n);
        out.append(rest);
        proof {
            assert(out@.len() == s@.len());
            assert(out@.subrange(1, s@.len() as int) =~= s@.subrange(1, s@.len() as int));
        }
        out
    } else {
        let r = s.to_owned();
        proof {
            if s@.len() > 0 {
                assert(r@.subrange(1, s@.len() as int) =~= s@.subrange(1, s@.len() as int));
            }
        }
        r
    }
}

/// One ASCII uppercase letter as a string slice.
fn upper_char_str(c: u8) -> (r: &'static str)
    requires
        65 <= c <= 90,
    ensures
        r@ == seq![c as char],
{
    proof {
        reveal_strlit("A");
        reveal_strlit("B");
        reveal_strlit("C");
        reveal_strlit("D");
        reveal_strlit("E");
        reveal_strlit("F");
        reveal_strlit("G");
        reveal_strlit("H");
        reveal_strlit("I");
        reveal_strlit("J");
        reveal_strlit("K");
        reveal_strlit("L");
        reveal_strlit("M");
        reveal_strlit("N");
        reveal_strlit("O");
        reveal_strlit("P");
        reveal_strlit("Q");
        reveal_strlit("R");
        reveal_strlit("S");
        reveal_strlit("T");
        reveal_strlit("U");
        reveal_strlit("V");
        reveal_strlit("W");
        reveal_strlit("X");
        reveal_strlit("Y");
        reveal_strlit("Z");
    }
    let r = match c {
        65 => "A",
        66 => "B",
        67 => "C",
        68 => "D",
        69 => "E",
        70 => "F",
        71 => "G",
        72 => "H",
        73 => "I",
        74 => "J",
        75 => "K",
        76 => "L",
        77 => "M",
        78 => "N",
        79 => "O",
        80 => "P",
        81 => "Q",
        82 => "R",
        83 => "S",
        84 => "T",
        85 => "U",
        86 => "V",
        87 => "W",
        88 => "X",
        89 => "Y",
        _ => "Z",
    };
    proof {
        assert(r@ =~= seq![c as char]);
    }
    r
}

impl ContextManager {
    /// No two notes share a category and slug.
    pub open spec fn wf(self) -> bool {
        forall|i: int, j: int|
            0 <= i < j < self.notes@.len() ==> !((#[trigger] self.notes@[i]).category@ == (
            #[trigger] self.notes@[j]).category@ && self.notes@[i].slug@ == self.notes@[j].slug@)
    }

    /// An empty store.
    pub fn new() -> (r: ContextManager)
        ensures
            r.wf(),
            r.notes@.len() == 0,
    {
        ContextManager { notes: Vec::new() }
    }

    /// First index of the note under `(category, slug)`, if any.
    fn find_note(&self, category: &str, slug: &str) -> (r: Option<usize>)
        ensures
            match r {
                Some(i) => is_first_note(self.notes@, category@, slug@, i as int),
                None => !has_note(self.notes@, category@, slug@),
            },
    {
        let n = self.notes.len();
        let mut i: usize = 0;
        while i < n
            invariant
                0 <= i <= n,
                n == self.notes@.len(),
                forall|j: int|
                    0 <= j < i ==> !((#[trigger] self.notes@[j]).category@ == category@
                        && self.notes@[j].slug@ == slug@),
            decreases n - i,
        {
            if str_eq(self.notes[i].category.as_str(), category) && str_eq(
                self.notes[i].slug.as_str(),
                slug,
            ) {
                return Some(i);
            }
            i += 1;
        }
        None
    }

    /// Store a note, overwriting any note already under `(category, slug)`.
    /// Refused exactly when the category is unknown; on success the
    /// returned path names the note's place in the context tree.
    pub fn write_entry(&mut self, category: &str, slug: &str, content: &str) -> (r: Result<
        String,
        ContextError,
    >)
        requires
            old(self).wf(),
        ensures
            final(self).wf(),
            r is Err <==> !valid_category(category@),
            match r {
                Ok(path) => {
                    &&& path@ == "context/"@ + category@ + "/"@ + slug@ + ".md"@
                    &&& if has_note(old(self).notes@, category@, slug@) {
                        exists|i: int|
                            #[trigger] is_first_note(old(self).notes@, category@, slug@, i)
                                && final(self).notes@ == old(self).notes@.update(
                                i,
                                ContextNote {
                                    category: final(self).notes@[i].category,
                                    slug: final(self).notes@[i].slug,
                                    content: final(self).notes@[i].content,
                                },
                            ) && final(self).notes@[i].category@ == category@ && final(self).notes@[i].slug@ == slug@ && final(self).notes@[i].content@
                                == content@
                    } else {
                        final(self).notes@.len() == old(self).notes@.len() + 1 && final(self).notes@.subrange(0, old(self).notes@.len() as int) == old(self).notes@
                            && final(self).notes@.last().category@ == category@ && final(self).notes@.last().slug@ == slug@ && final(self).notes@.last().content@
                            == content@
                    }
                },
                Err(ContextError::UnknownCategory(m)) => m@ == category@ && final(self).notes@
                    == old(self).notes@,
                Err(_) => false,
            },
    {
        if !validate_category(category) {
            return Err(ContextError::UnknownCategory(category.to_owned()));
        }
        let mut path = String::from_str("context/");
        path.append(category);
        path.append("/");
        path.append(slug);
        path.append(".md");
        let note = ContextNote {
            category: category.to_owned(),
            slug: slug.to_owned(),
            content: content.to_owned(),
        };
        match self.find_note(category, slug) {
            Some(i) => {
                let ghost ns0 = self.notes@;
                let _old_note = self.notes.remove(i);
                self.notes.insert(i, note);
                proof {
                    assert(self.notes@ =~= ns0.update(i as int, self.notes@[i as int]));
                    assert forall|a: int, b: int|
                        0 <= a < b < self.notes@.len() implies !((#[trigger] self.notes@[a]).category@
                        == (#[trigger] self.notes@[b]).category@ && self.notes@[a].slug@
                        == self.notes@[b].slug@) by {
                        if a != i as int && b != i as int {
                            assert(self.notes@[a] == ns0[a] && self.notes@[b] == ns0[b]);
                        } else if a == i as int {
                            assert(self.notes@[b] == ns0[b]);
                            assert(ns0[b].category@ == old(self).notes@[b].category@);
                        } else {
                            assert(self.notes@[a] == ns0[a]);
                        }
                    }
                }
                Ok(path)
            }
            None => {
                self.notes.push(note);
                proof {
                    let ghost ns0 = old(self).notes@;
                    assert(self.notes@.subrange(0, ns0.len() as int) =~= ns0);
                    assert forall|a: int, b: int|
                        0 <= a < b < self.notes@.len() implies !((#[trigger] self.notes@[a]).category@
                        == (#[trigger] self.notes@[b]).category@ && self.notes@[a].slug@
                        == self.notes@[b].slug@) by {
                        if b < ns0.len() {
                            assert(self.notes@[a] == ns0[a] && self.notes@[b] == ns0[b]);
                        } else {
                            assert(self.notes@[a] == ns0[a]);
                            assert(!has_note(ns0, category@, slug@));
                        }
                    }
                }
                Ok(path)
            }
        }
    }

    /// Read the note under `(category, slug)`. Refused when the category
    /// is unknown or no such note exists; otherwise exactly the stored
    /// content comes back.
    pub fn read_entry(&self, category: &str, slug: &str) -> (r: Result<String, ContextError>)
        ensures
            match r {
                Ok(content) => exists|i: int|
                    #[trigger] is_first_note(self.notes@, category@, slug@, i) && content@
                        == self.notes@[i].content@,
                Err(ContextError::UnknownCategory(m)) => !valid_category(category@) && m@
                    == category@,
                Err(ContextError::Missing(m)) => valid_category(category@) && !has_note(
                    self.notes@,
                    category@,
                    slug@,
                ) && m@ == slug@,
            },
            r is Ok <==> valid_category(category@) && has_note(self.notes@, category@, slug@),
    {
        if !validate_category(category) {
            return Err(ContextError::UnknownCategory(category.to_owned()));
        }
        match self.find_note(category, slug) {
            Some(i) => Ok(self.notes[i].content.clone()),
            None => Err(ContextError::Missing(slug.to_owned())),
        }
    }

    /// List the notes of one category, ordered by slug. Refused exactly
    /// when the category is unknown; every listed entry names a stored
    /// note of that category, and every such note is listed.
    pub fn list_category(&self, category: &str) -> (r: Result<Vec<ContextEntry>, ContextError>)
        ensures
            r is Err <==> !valid_category(category@),
            match r {
                Ok(v) => listing_ok(self.notes@, category@, v@),
                Err(ContextError::UnknownCategory(m)) => m@ == category@,
                Err(_) => false,
            },
    {
        if !validate_category(category) {
            return Err(ContextError::UnknownCategory(category.to_owned()));
        }
        let n = self.notes.len();
        let mut out: Vec<ContextEntry> = Vec::new();
        let mut i: usize = 0;
        while i < n
            invariant
                0 <= i <= n,
                n == self.notes@.len(),
                forall|k: int|
                    0 <= k < out@.len() ==> has_note(
                        self.notes@,
                        category@,
                        (#[trigger] out@[k]).slug@,
                    ) && out@[k].category@ == category@,
                forall|j: int|
                    0 <= j < i && (#[trigger] self.notes@[j]).category@ == category@ ==> exists|
                        k: int,
                    |
                        0 <= k < out@.len() && (#[trigger] out@[k]).slug@ == self.notes@[j].slug@,
                forall|k1: int, k2: int|
                    0 <= k1 < k2 < out@.len() ==> crate::text::lex_le(
                        (#[trigger] out@[k1]).slug@,
                        (#[trigger] out@[k2]).slug@,
                    ),
            decreases n - i,
        {
            if str_eq(self.notes[i].category.as_str(), category) {
                let mut path = String::from_str("context/");
                path.append(category);
                path.append("/");
                path.append(self.notes[i].slug.as_str());
                path.append(".md");
                let entry = ContextEntry {
                    category: category.to_owned(),
                    slug: self.notes[i].slug.clone(),
                    path,
                };
                let ghost pre = out@;
                let ghost new_slug = entry.slug@;
                let pos = sorted_slug_position(&out, entry.slug.as_str());
                out.insert(pos, entry);
                proof {
                    assert forall|k1: int, k2: int|
                        0 <= k1 < k2 < out@.len() implies crate::text::lex_le(
                        (#[trigger] out@[k1]).slug@,
                        (#[trigger] out@[k2]).slug@,
                    ) by {
                        if k1 < pos as int && k2 < pos as int {
                            assert(out@[k1] == pre[k1] && out@[k2] == pre[k2]);
                        } else if k1 < pos as int && k2 == pos as int {
                            assert(out@[k1] == pre[k1] && out@[k2].slug@ == new_slug);
                        } else if k1 < pos as int && k2 > pos as int {
                            assert(out@[k1] == pre[k1] && out@[k2] == pre[k2 - 1]);
                        } else if k1 == pos as int && k2 > pos as int {
                            assert(out@[k1].slug@ == new_slug && out@[k2] == pre[k2 - 1]);
                            if k2 - 1 > pos as int {
                                assert(crate::text::lex_le(pre[pos as int].slug@, pre[k2 - 1].slug@));
                                crate::text::lemma_lex_trans(
                                    new_slug,
                                    pre[pos as int].slug@,
                                    pre[k2 - 1].slug@,
                                );
                            }
                        } else {
                            assert(out@[k1] == pre[k1 - 1] && out@[k2] == pre[k2 - 1]);
                        }
                    }
                    assert forall|k: int|
                        0 <= k < out@.len() implies has_note(
                        self.notes@,
                        category@,
                        (#[trigger] out@[k]).slug@,
                    ) && out@[k].category@ == category@ by {
                        if k < pos as int {
                            assert(out@[k] == pre[k]);
                        } else if k > pos as int {
                            assert(out@[k] == pre[k - 1]);
                        } else {
                            assert(out@[k].slug@ == self.notes@[i as int].slug@);
                            assert(self.notes@[i as int].category@ == category@);
                            assert(has_note(self.notes@, category@, out@[k].slug@));
                            assert(out@[k].category@ == category@);
                        }
                    }
                    assert forall|j: int|
                        0 <= j < i + 1 && (#[trigger] self.notes@[j]).category@
                            == category@ implies exists|k: int|
                        0 <= k < out@.len() && (#[trigger] out@[k]).slug@
                            == self.notes@[j].slug@ by {
                        if j < i as int {
                            let k0 = choose|k: int|
                                0 <= k < pre.len() && (#[trigger] pre[k]).slug@
                                    == self.notes@[j].slug@;
                            if k0 < pos as int {
                                assert(out@[k0].slug@ == self.notes@[j].slug@);
                            } else {
                                assert(out@[k0 + 1].slug@ == self.notes@[j].slug@);
                            }
                        } else {
                            assert(out@[pos as int].slug@ == self.notes@[j].slug@);
                        }
                    }
                }
            }
            i += 1;
        }
        proof {
            assert(listing_ok(self.notes@, category@, out@));
        }
        Ok(out)
    }

    /// List every note, category by category in listing order.
    pub fn list_all(&self) -> (r: Vec<ContextEntry>)
        ensures
            forall|k: int|
                0 <= k < r@.len() ==> has_note(
                    self.notes@,
                    (#[trigger] r@[k]).category@,
                    r@[k].slug@,
                ),
    {
        let cats = categories();
        let mut out: Vec<ContextEntry> = Vec::new();
        let mut c: usize = 0;
        while c < cats.len()
            invariant
                0 <= c <= cats@.len(),
                forall|k: int|
                    0 <= k < out@.len() ==> has_note(
                        self.notes@,
                        (#[trigger] out@[k]).category@,
                        out@[k].slug@,
                    ),
            decreases cats@.len() - c,
        {
            match self.list_category(cats[c]) {
                Ok(mut entries) => {
                    let ghost pre = out@;
                    let ghost add = entries@;
                    out.append(&mut entries);
                    proof {
                        assert forall|k: int|
                            0 <= k < out@.len() implies has_note(
                            self.notes@,
                            (#[trigger] out@[k]).category@,
                            out@[k].slug@,
                        ) by {
                            if k < pre.len() {
                                assert(out@[k] == pre[k]);
                            } else {
                                assert(out@[k] == add[k - pre.len()]);
                                assert(add[k - pre.len()].category@ == (cats@[c as int])@);
                            }
                        }
                    }
                }
                Err(_) => {}
            }
            c += 1;
        }
        out
    }

    /// How many notes each category holds, in listing order.
    pub fn counts(&self) -> (r: Vec<(String, usize)>)
        ensures
            r@.len() == 5,
            forall|k: int| 0 <= k < 5 ==> valid_category((#[trigger] r@[k]).0@),
    {
        let cats = categories();
        let mut out: Vec<(String, usize)> = Vec::new();
        let mut c: usize = 0;
        while c < cats.len()
            invariant
                0 <= c <= cats@.len(),
                cats@.len() == 5,
                out@.len() == c as int,
                forall|k: int| 0 <= k < 5 ==> valid_category((#[trigger] cats@[k])@),
                forall|k: int| 0 <= k < c ==> valid_category((#[trigger] out@[k]).0@),
            decreases cats@.len() - c,
        {
            let mut count: usize = 0;
            let n = self.notes.len();
            let mut i: usize = 0;
            while i < n
                invariant
                    0 <= i <= n,
                    n == self.notes@.len(),
                    count <= i,
                    c < cats@.len(),
                decreases n - i,
            {
                if str_eq(self.notes[i].category.as_str(), cats[c]) {
                    count += 1;
                }
                i += 1;
            }
            out.push((cats[c].to_owned(), count));
            c += 1;
        }
        out
    }

    /// The context section of the agent instructions: the section
    /// heading, one line per non-empty category naming its slugs, and the
    /// pointer to the files — empty exactly when the store is empty.
    pub fn generate_agents_section(&self) -> (r: String)
        ensures
            (r@.len() == 0) == (self.notes@.len() == 0),
            self.notes@.len() > 0 ==> {
                &&& r@.len() >= "## Context\n"@.len()
                    + "Read context/{category}/{name}.md for details.\n"@.len()
                &&& r@.subrange(0, "## Context\n"@.len() as int) == "## Context\n"@
                &&& r@.subrange(
                    r@.len() - "Read context/{category}/{name}.md for details.\n"@.len(),
                    r@.len() as int,
                ) == "Read context/{category}/{name}.md for details.\n"@
            },
    {
        if self.notes.len() == 0 {
            return String::new();
        }
        proof {
            reveal_strlit("## Context\n");
            reveal_strlit("Read context/{category}/{name}.md for details.\n");
        }
        let mut s = String::new();
        let cats = categories();
        let mut c: usize = 0;
        while c < cats.len()
            decreases cats@.len() - c,
        {
            match self.list_category(cats[c]) {
                Ok(entries) => {
                    if entries.len() > 0 {
                        let label = capitalize(cats[c]);
                        s.append(label.as_str());
                        s.append(": ");
                        let mut k: usize = 0;
                        while k < entries.len()
                            decreases entries@.len() - k,
                        {
                            if k > 0 {
                                s.append(", ");
                            }
                            s.append(entries[k].slug.as_str());
                            k += 1;
                        }
                        s.append("\n");
                    }
                }
                Err(_) => {}
            }
            c += 1;
        }
        let mut out = String::from_str("## Context\n");
        let ghost mid = s@;
        out.append(s.as_str());
        out.append("Read context/{category}/{name}.md for details.\n");
        proof {
            assert(out@ == "## Context\n"@ + mid
                + "Read context/{category}/{name}.md for details.\n"@);
            assert(out@.subrange(0, "## Context\n"@.len() as int) =~= "## Context\n"@);
            assert(out@.subrange(
                out@.len() - "Read context/{category}/{name}.md for details.\n"@.len(),
                out@.len() as int,
            ) =~= "Read context/{category}/{name}.md for details.\n"@);
        }
        out
    }

    /// The one-line-per-note table of contents — empty exactly when the
    /// store is empty.
    pub fn generate_index(&self) -> (r: String)
        ensures
            (r@.len() == 0) == (self.notes@.len() == 0),
            self.notes@.len() > 0 ==> r@.len() >= "# Context Index\n\n"@.len() && r@.subrange(
                0,
                "# Context Index\n\n"@.len() as int,
            ) == "# Context Index\n\n"@,
    {
        if self.notes.len() == 0 {
            return String::new();
        }
        proof {
            reveal_strlit("# Context Index\n\n");
        }
        let mut body = String::new();
        let cats = categories();
        let mut c: usize = 0;
        while c < cats.len()
            decreases cats@.len() - c,
        {
            match self.list_category(cats[c]) {
                Ok(entries) => {
                    if entries.len() > 0 {
                        body.append("## ");
                        let label = capitalize(cats[c]);
                        body.append(label.as_str());
                        body.append(" (");
                        let cnt = crate::text::usize_to_string(entries.len());
                        body.append(cnt.as_str());
                        body.append(" entries)\n");
                        let mut k: usize = 0;
                        while k < entries.len()
                            invariant
                                c < cats@.len(),
                            decreases entries@.len() - k,
                        {
                            body.append("- ");
                            body.append(entries[k].slug.as_str());
                            body.append(": ");
                            match self.read_entry(cats[c], entries[k].slug.as_str()) {
                                Ok(content) => {
                                    let summary = first_heading(content.as_str());
                                    body.append(summary.as_str());
                                }
                                Err(_) => {}
                            }
                            body.append("\n");
                            k += 1;
                        }
                        body.append("\n");
                    }
                }
                Err(_) => {}
            }
            c += 1;
        }
        let mut out = String::from_str("# Context Index\n\n");
        out.append(body.as_str());
        proof {
            assert(out@.subrange(0, "# Context Index\n\n"@.len() as int)
                =~= "# Context Index\n\n"@);
        }
        out
    }

    /// Store a reference note with its source and tags as front matter:
    /// the stored content is exactly the source line and the bracketed
    /// tag list between front-matter markers, followed by the body.
    pub fn write_reference(&mut self, slug: &str, source_url: &str, tags: &[&str], body: &str) -> (r:
        Result<String, ContextError>)
        requires
            old(self).wf(),
        ensures
            final(self).wf(),
            r is Ok,
            exists|i: int|
                #[trigger] is_first_note(final(self).notes@, "references"@, slug@, i) && final(self).notes@[i].content@ == "---\nsource: "@ + source_url@ + "\ntags: ["@
                    + tags_joined(tags@, tags@.len() as int) + "]\n---\n\n"@ + body@,
    {
        let mut content = String::from_str("---\nsource: ");
        content.append(source_url);
        content.append("\ntags: [");
        let mut t: usize = 0;
        while t < tags.len()
            invariant
                0 <= t <= tags@.len(),
                content@ == "---\nsource: "@ + source_url@ + "\ntags: ["@ + tags_joined(
                    tags@,
                    t as int,
                ),
            decreases tags@.len() - t,
        {
            if t > 0 {
                content.append(", ");
            }
            content.append(tags[t]);
            proof {
                assert(content@ =~= "---\nsource: "@ + source_url@ + "\ntags: ["@ + tags_joined(
                    tags@,
                    t as int + 1,
                ));
            }
            t += 1;
        }
        content.append("]\n---\n\n");
        content.append(body);
        let r = self.write_entry("references", slug, content.as_str());
        proof {
            reveal_strlit("references");
        }
        match r {
            Ok(p) => {
                proof {
                    if has_note(old(self).notes@, "references"@, slug@) {
                        let i = choose|i: int|
                            #[trigger] is_first_note(old(self).notes@, "references"@, slug@, i)
                                && self.notes@ == old(self).notes@.update(
                                i,
                                ContextNote {
                                    category: self.notes@[i].category,
                                    slug: self.notes@[i].slug,
                                    content: self.notes@[i].content,
                                },
                            ) && self.notes@[i].category@ == "references"@ && self.notes@[i].slug@
                                == slug@ && self.notes@[i].content@ == content@;
                        assert forall|j: int|
                            0 <= j < i implies !((#[trigger] self.notes@[j]).category@
                            == "references"@ && self.notes@[j].slug@ == slug@) by {
                            assert(self.notes@[j] == old(self).notes@[j]);
                        }
                        assert(is_first_note(self.notes@, "references"@, slug@, i));
                    } else {
                        let i = self.notes@.len() - 1;
                        assert(self.notes@[i].category@ == "references"@ && self.notes@[i].slug@
                            == slug@ && self.notes@[i].content@ == content@);
                        assert forall|j: int|
                            0 <= j < i implies !((#[trigger] self.notes@[j]).category@
                            == "references"@ && self.notes@[j].slug@ == slug@) by {
                            assert(self.notes@.subrange(0, old(self).notes@.len() as int) == old(
                                self,
                            ).notes@);
                            assert(self.notes@[j] == old(self).notes@[j]);
                        }
                        assert(is_first_note(self.notes@, "references"@, slug@, i));
                    }
                }
                Ok(p)
            }
            Err(e) => Err(e),
        }
    }
}

/// Where to insert a slug to keep the listing ordered: everything before
/// the position compares at or below the slug, and the entry at the
/// position (when one exists) compares strictly above it.
fn sorted_slug_position(v: &Vec<ContextEntry>, slug: &str) -> (r: usize)
    ensures
        r <= v@.len(),
        forall|t: int| 0 <= t < r ==> crate::text::lex_le((#[trigger] v@[t]).slug@, slug@),
        (r as int) < v@.len() ==> crate::text::lex_le(slug@, v@[r as int].slug@),
{
    let mut j: usize = 0;
    while j < v.len()
        invariant
            0 <= j <= v@.len(),
            forall|t: int| 0 <= t < j ==> crate::text::lex_le((#[trigger] v@[t]).slug@, slug@),
        decreases v@.len() - j,
    {
        if !str_le(v[j].slug.as_str(), slug) {
            proof {
                crate::text::lemma_lex_total(v@[j as int].slug@, slug@);
            }
            return j;
        }
        j += 1;
    }
    j
}

/// The first heading or first non-empty line of a note, with any front
/// matter skipped, shortened to at most eighty characters.
pub fn first_heading(content: &str) -> (r: String)
    ensures
        r@.len() <= 80,
{
    let n = content.unicode_len();
    // skip front matter: the text after the second marker, when the note
    // starts with one
    let mut body_start: usize = 0;
    if n >= 3 && is_marker_at(content, 0) {
        let mut p: usize = 3;
        let mut found: usize = 0;
        let mut have = false;
        while p <= n - 3
            invariant
                3 <= p,
                n >= 3,
                p <= n,
                n == content@.len(),
                have ==> found + 3 <= n,
            decreases n - p,
        {
            if is_marker_at(content, p) {
                found = p;
                have = true;
                break;
            }
            p += 1;
        }
        if have {
            body_start = found + 3;
        }
    }
    // first non-empty line, with heading marks and spaces stripped
    let mut i: usize = body_start;
    if i > n {
        i = n;
    }
    while i < n
        invariant
            0 <= i <= n,
            n == content@.len(),
        decreases n - i,
    {
        // find the end of the line
        let mut e: usize = i;
        while e < n && !(content.get_char(e) == '\n')
            invariant
                i <= e <= n,
                n == content@.len(),
            decreases n - e,
        {
            e += 1;
        }
        // strip leading spaces and heading marks
        let mut b: usize = i;
        while b < e && (content.get_char(b) == ' ' || content.get_char(b) == '\t' || content.get_char(b) == '#')
            invariant
                i <= b <= e,
                e <= n,
                n == content@.len(),
            decreases e - b,
        {
            b += 1;
        }
        // strip trailing spaces
        let mut t: usize = e;
        while t > b && (content.get_char(t - 1) == ' ' || content.get_char(t - 1) == '\t'
            || content.get_char(t - 1) == '\r')
            invariant
                b <= t <= e,
                e <= n,
                n == content@.len(),
            decreases t,
        {
            t -= 1;
        }
        if t > b {
            if t - b > 80 {
                let mut out = content.substring_char(b, b + 77).to_owned();
                out.append("...");
                proof {
                    reveal_strlit("...");
                }
                return out;
            }
            return content.substring_char(b, t).to_owned();
        }
        if e < n {
            i = e + 1;
        } else {
            break;
        }
    }
    proof {
        reveal_strlit("(empty)");
    }
    String::from_str("(empty)")
}

/// Three front-matter marker characters stand at position `p`.
fn is_marker_at(content: &str, p: usize) -> (r: bool)
    requires
        p + 3 <= content@.len(),
        p + 3 <= usize::MAX,
{
    content.get_char(p) == '-' && content.get_char(p + 1) == '-' && content.get_char(p + 2) == '-'
}

} // verus!
