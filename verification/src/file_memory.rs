//! Memory kept in two text files whose entries stand between delimiters.

use crate::text;
use vstd::prelude::*;

verus! {

/// What stands between two entries of a memory file.
pub const ENTRY_DELIMITER: &'static str = "\n§\n";

/// One entry of a memory file.
#[derive(Debug, Clone)]
pub struct MemoryEntry {
    pub id: usize,
    pub content: String,
    pub blocked: bool,
}

/// Which of the two memory files.
#[derive(Debug, Clone, Copy, PartialEq, Eq, Structural)]
pub enum MemoryTarget {
    Memory,
    User,
}

/// The name of the file.
pub open spec fn file_name(target: MemoryTarget) -> Seq<char> {
    match target {
        MemoryTarget::Memory => "MEMORY.md"@,
        MemoryTarget::User => "USER.md"@,
    }
}

impl MemoryTarget {
    /// The name of the file.
    pub fn as_str(&self) -> (r: &'static str)
        ensures
            r@ == file_name(*self),
    {
        match self {
            MemoryTarget::Memory => "MEMORY.md",
            MemoryTarget::User => "USER.md",
        }
    }

    /// The file of that name.
    pub fn from_str(s: &str) -> (r: Option<Self>)
        ensures
            match r {
                Some(target) => file_name(target) == s@,
                None => s@ != file_name(MemoryTarget::Memory) && s@ != file_name(
                    MemoryTarget::User,
                ),
            },
    {
        if text::same(s, "MEMORY.md") {
            Some(MemoryTarget::Memory)
        } else if text::same(s, "USER.md") {
            Some(MemoryTarget::User)
        } else {
            None
        }
    }
}

// ---------------------------------------------------------------------------
// Scanning for threats
// ---------------------------------------------------------------------------

/// The patterns for content that tries to take the agent over or to carry data away.
pub const THREAT_PATTERNS: [&'static str; 5] = [
    r"(?i)(ignore|disregard|forget)\s+(all\s+)?(previous|above|earlier)\s+(instructions?|commands?|directives?)",
    r"(?i)you\s+are\s+now\s+(a|an|the)\s+\w+",
    r"(?i)(send|reply|forward|email)\s+(to|at)\s+\S+@\S+",
    r"(?i)(output|write|save|dump)\s+(to|into)\s+(file|url|http|ftp)",
    r"(?i)(new|updated|revised)\s+(instructions?|rules?|directives?)\s*:",
];

/// The text of one of the patterns for threats.
pub open spec fn threat_pattern(i: int) -> Seq<char> {
    THREAT_PATTERNS@[i]@
}

/// Whether `regex::Regex::is_match` finds the pattern in the text; none where
/// `regex::Regex::new` refuses the pattern.
pub uninterp spec fn pattern_found(pattern: Seq<char>, content: Seq<char>) -> Option<bool>;

/// Calls `regex::Regex::new` on one of the patterns for threats and `regex::Regex::is_match` on
/// the text. Whether there is a match depends on the pattern and the text alone, and is given
/// the name `pattern_found`.
#[verifier::external_body]
fn search(pattern: &str, content: &str) -> (r: Option<bool>)
    requires
        exists|i: int| 0 <= i < 5 && pattern@ == threat_pattern(i),
    ensures
        r == pattern_found(pattern@, content@),
{
    match regex::Regex::new(pattern) {
        Ok(re) => Some(re.is_match(content)),
        Err(_) => None,
    }
}

/// One of the patterns for threats is in the text.
pub open spec fn threatening(content: Seq<char>) -> bool {
    exists|i: int| #![trigger threat_pattern(i)]
        0 <= i < 5 && pattern_found(threat_pattern(i), content) == Some(true)
}

/// Whether one of the searches found its pattern; a pattern that was refused finds nothing.
pub fn any_found(results: &Vec<Option<bool>>) -> (r: bool)
    ensures
        r == exists|i: int| #![trigger results@[i]]
            0 <= i < results@.len() && results@[i] == Some(true),
{
    let mut i: usize = 0;
    while i < results.len()
        invariant
            i <= results@.len(),
            forall|j: int| #![trigger results@[j]] 0 <= j < i ==> results@[j] != Some(true),
        decreases results@.len() - i,
    {
        match results[i] {
            Some(found) => {
                if found {
                    assert(results@[i as int] == Some(true));
                    return true;
                }
            },
            None => {},
        }
        i = i + 1;
    }
    false
}

// ---------------------------------------------------------------------------
// Entries
// ---------------------------------------------------------------------------

/// The texts that are left of the pieces once they are trimmed and the empty ones left out.
pub open spec fn entry_texts(pieces: Seq<Seq<char>>) -> Seq<Seq<char>>
    decreases pieces.len(),
{
    if pieces.len() == 0 {
        Seq::empty()
    } else {
        let rest = entry_texts(pieces.drop_last());
        let t = text::trimmed(pieces.last());
        if t.len() > 0 {
            rest.push(t)
        } else {
            rest
        }
    }
}

/// The texts of the entries in a memory file.
pub open spec fn entries_in(raw: Seq<char>) -> Seq<Seq<char>> {
    entry_texts(text::pieces(raw, ENTRY_DELIMITER@))
}

/// The entries hold the texts in order, counted from 0, each blocked if it is a threat.
pub open spec fn holds_entries(entries: Seq<MemoryEntry>, texts: Seq<Seq<char>>) -> bool {
    &&& entries.len() == texts.len()
    &&& forall|i: int| #![trigger entries[i]]
        0 <= i < entries.len() ==> {
            &&& entries[i].id == i
            &&& entries[i].content@ == texts[i]
            &&& entries[i].blocked == threatening(texts[i])
        }
}

/// How an entry with that text is shown.
pub open spec fn shown_text(content: Seq<char>, blocked: bool) -> Seq<char> {
    if blocked {
        "[BLOCKED: prompt injection detected]"@
    } else {
        content
    }
}

/// How the entries with those texts are shown.
pub open spec fn shown_texts(texts: Seq<Seq<char>>) -> Seq<Seq<char>> {
    Seq::new(texts.len(), |i: int| shown_text(texts[i], threatening(texts[i])))
}

/// How the content of a memory file is shown to the model.
pub open spec fn snapshot_of(raw: Seq<char>) -> Seq<char> {
    text::joined(shown_texts(entries_in(raw)), ENTRY_DELIMITER@)
}

/// The delimiter has three characters.
pub proof fn lemma_delimiter()
    ensures
        ENTRY_DELIMITER@ == seq!['\n', '§', '\n'],
        ENTRY_DELIMITER@.len() == 3,
{
    reveal_strlit("\n§\n");
    assert(ENTRY_DELIMITER@ =~= seq!['\n', '§', '\n']);
}

// ---------------------------------------------------------------------------
// Fitting a limit
// ---------------------------------------------------------------------------

/// The last `k` of the pieces, joined.
pub open spec fn newest(pieces: Seq<Seq<char>>, k: int) -> Seq<char> {
    text::joined(pieces.skip(pieces.len() - k), ENTRY_DELIMITER@)
}

/// How many of the last pieces, from `k` on upwards, fit the limit when joined.
pub open spec fn fitting_from(pieces: Seq<Seq<char>>, limit: int, k: int) -> int
    decreases pieces.len() - k,
{
    if k < 0 || k >= pieces.len() || newest(pieces, k + 1).len() > limit {
        k
    } else {
        fitting_from(pieces, limit, k + 1)
    }
}

/// The content with its oldest entries left out until it has at most `limit` characters.
pub open spec fn fitted(content: Seq<char>, limit: int) -> Seq<char> {
    if content.len() <= limit {
        content
    } else {
        let pieces = text::pieces(content, ENTRY_DELIMITER@);
        newest(pieces, fitting_from(pieces, limit, 0))
    }
}

/// The content of a memory file after an entry was added: the oldest entries are left out until
/// the rest fits, but the new one always stays, by itself where it is longer than the limit.
pub open spec fn added(existing: Seq<char>, content: Seq<char>, limit: int) -> Seq<char> {
    let entry = text::trimmed(content);
    let whole = if existing.len() == 0 {
        entry
    } else {
        existing + ENTRY_DELIMITER@ + entry
    };
    if entry.len() == 0 {
        existing
    } else if fitted(whole, limit).len() > 0 {
        fitted(whole, limit)
    } else {
        text::pieces(entry, ENTRY_DELIMITER@).last()
    }
}

/// The content with the first `old_text` in it replaced; the same where there is none.
pub open spec fn replaced(content: Seq<char>, old_text: Seq<char>, new_text: Seq<char>) -> Seq<
    char,
> {
    match text::found(content, old_text) {
        Some(i) => content.take(i) + new_text + content.skip(i + old_text.len()),
        None => content,
    }
}

/// One more piece makes the joined text longer by the piece and a delimiter.
proof fn lemma_newest_len(pieces: Seq<Seq<char>>, k: int)
    requires
        0 <= k < pieces.len(),
    ensures
        newest(pieces, k + 1).len() == pieces[pieces.len() - k - 1].len() + if k > 0 {
            3 + newest(pieces, k).len()
        } else {
            0
        },
        k > 0 ==> newest(pieces, k + 1) == pieces[pieces.len() - k - 1] + ENTRY_DELIMITER@
            + newest(pieces, k),
{
    let n = pieces.len() as int;
    let tail = pieces.skip(n - k - 1);
    lemma_delimiter();
    if k > 0 {
        text::lemma_joined_first(tail, ENTRY_DELIMITER@);
        assert(tail.drop_first() =~= pieces.skip(n - k));
    }
}

proof fn lemma_fitting(pieces: Seq<Seq<char>>, limit: int, k: int)
    requires
        0 <= k <= pieces.len(),
        newest(pieces, k).len() <= limit,
    ensures
        k <= fitting_from(pieces, limit, k) <= pieces.len(),
        newest(pieces, fitting_from(pieces, limit, k)).len() <= limit,
    decreases pieces.len() - k,
{
    if k < pieces.len() && newest(pieces, k + 1).len() <= limit {
        lemma_fitting(pieces, limit, k + 1);
    }
}

// ---------------------------------------------------------------------------
// The store
// ---------------------------------------------------------------------------

/// The two memory files: where they are, what they hold, and how long they may get.
#[derive(Debug, Clone)]
pub struct FileMemoryStore {
    pub memory_path: String,
    pub user_path: String,
    pub memory_char_limit: usize,
    pub user_char_limit: usize,
    pub memory: String,
    pub user: String,
}

impl FileMemoryStore {
    /// What a file holds.
    pub open spec fn content(&self, target: MemoryTarget) -> Seq<char> {
        match target {
            MemoryTarget::Memory => self.memory@,
            MemoryTarget::User => self.user@,
        }
    }

    /// How many characters a file may have.
    pub open spec fn limit(&self, target: MemoryTarget) -> int {
        match target {
            MemoryTarget::Memory => self.memory_char_limit as int,
            MemoryTarget::User => self.user_char_limit as int,
        }
    }

    /// The same store but for what one file holds.
    pub open spec fn differs_in(&self, other: &Self, target: MemoryTarget) -> bool {
        &&& self.memory_path == other.memory_path
        &&& self.user_path == other.user_path
        &&& self.memory_char_limit == other.memory_char_limit
        &&& self.user_char_limit == other.user_char_limit
        &&& target == MemoryTarget::Memory ==> self.user == other.user
        &&& target == MemoryTarget::User ==> self.memory == other.memory
    }

    /// A store of two empty files.
    pub fn new(
        memory_path: &str,
        user_path: &str,
        memory_char_limit: usize,
        user_char_limit: usize,
    ) -> (r: Self)
        ensures
            r.memory_path@ == memory_path@,
            r.user_path@ == user_path@,
            r.memory_char_limit == memory_char_limit,
            r.user_char_limit == user_char_limit,
            r.memory@ == Seq::<char>::empty(),
            r.user@ == Seq::<char>::empty(),
    {
        FileMemoryStore {
            memory_path: memory_path.to_owned(),
            user_path: user_path.to_owned(),
            memory_char_limit,
            user_char_limit,
            memory: String::new(),
            user: String::new(),
        }
    }

    /// Takes what was read from a file.
    pub fn set_content(&mut self, target: MemoryTarget, content: &str)
        ensures
            final(self).differs_in(old(self), target),
            final(self).content(target) == content@,
    {
        match target {
            MemoryTarget::Memory => {
                self.memory = content.to_owned();
            },
            MemoryTarget::User => {
                self.user = content.to_owned();
            },
        }
    }

    /// What a file holds.
    pub fn content_of(&self, target: MemoryTarget) -> (r: &str)
        ensures
            r@ == self.content(target),
    {
        match target {
            MemoryTarget::Memory => self.memory.as_str(),
            MemoryTarget::User => self.user.as_str(),
        }
    }

    /// Where a file is.
    pub fn path_for_target(&self, target: MemoryTarget) -> (r: &str)
        ensures
            r@ == match target {
                MemoryTarget::Memory => self.memory_path@,
                MemoryTarget::User => self.user_path@,
            },
    {
        match target {
            MemoryTarget::Memory => self.memory_path.as_str(),
            MemoryTarget::User => self.user_path.as_str(),
        }
    }

    /// How many characters a file may have.
    pub fn limit_for_target(&self, target: MemoryTarget) -> (r: usize)
        ensures
            r == self.limit(target),
    {
        match target {
            MemoryTarget::Memory => self.memory_char_limit,
            MemoryTarget::User => self.user_char_limit,
        }
    }

    /// Where the content is written before it takes the place of the file.
    pub fn tmp_path(path: &str) -> (r: String)
        ensures
            r@ == path@ + ".tmp"@,
    {
        text::concat2(path, ".tmp")
    }

    /// Whether one of the patterns for threats is in the text.
    pub fn scan_for_threats(content: &str) -> (r: bool)
        ensures
            r == threatening(content@),
    {
        let mut results: Vec<Option<bool>> = Vec::new();
        let mut i: usize = 0;
        while i < 5
            invariant
                i <= 5,
                results@.len() == i,
                forall|j: int| #![trigger results@[j]]
                    0 <= j < i ==> results@[j] == pattern_found(threat_pattern(j), content@),
            decreases 5 - i,
        {
            let pattern: &str = THREAT_PATTERNS[i];
            assert(pattern@ == threat_pattern(i as int));
            results.push(search(pattern, content));
            i = i + 1;
        }
        let r: bool = any_found(&results);
        proof {
            if r {
                let j = choose|j: int| #![trigger results@[j]]
                    0 <= j < results@.len() && results@[j] == Some(true);
                assert(pattern_found(threat_pattern(j), content@) == Some(true));
            }
            if threatening(content@) {
                let j = choose|j: int| #![trigger threat_pattern(j)]
                    0 <= j < 5 && pattern_found(threat_pattern(j), content@)
                        == Some(true);
                assert(results@[j] == Some(true));
            }
        }
        r
    }

    /// The entries of a file.
    pub fn load_entries(&self, target: MemoryTarget) -> (r: Vec<MemoryEntry>)
        ensures
            holds_entries(r@, entries_in(self.content(target))),
    {
        proof {
            lemma_delimiter();
        }
        let pieces: Vec<String> = text::split(self.content_of(target), ENTRY_DELIMITER);
        let ghost all = text::texts(pieces@);
        let mut entries: Vec<MemoryEntry> = Vec::new();
        let mut i: usize = 0;
        assert(all.take(0) =~= Seq::<Seq<char>>::empty());
        while i < pieces.len()
            invariant
                i <= pieces@.len(),
                all == text::texts(pieces@),
                holds_entries(entries@, entry_texts(all.take(i as int))),
                entries@.len() <= i,
            decreases pieces@.len() - i,
        {
            let content: &str = text::trim(pieces[i].as_str());
            proof {
                assert(all.take(i + 1).drop_last() =~= all.take(i as int));
                assert(all.take(i + 1).last() == pieces@[i as int]@);
            }
            if content.unicode_len() > 0 {
                let blocked: bool = Self::scan_for_threats(content);
                let id: usize = entries.len();
                entries.push(MemoryEntry { id, content: content.to_owned(), blocked });
            }
            i = i + 1;
        }
        assert(all.take(i as int) =~= all);
        entries
    }

    /// How an entry is shown.
    pub fn display_entry(entry: &MemoryEntry) -> (r: &str)
        ensures
            r@ == shown_text(entry.content@, entry.blocked),
    {
        if entry.blocked {
            "[BLOCKED: prompt injection detected]"
        } else {
            entry.content.as_str()
        }
    }

    /// Adds an entry to a file. Gives whether the file has to be written; an empty entry is left
    /// out.
    pub fn add(&mut self, target: MemoryTarget, content: &str) -> (r: bool)
        ensures
            r == (text::trimmed(content@).len() > 0),
            final(self).differs_in(old(self), target),
            final(self).content(target) == added(
                old(self).content(target),
                content@,
                old(self).limit(target),
            ),
    {
        let entry: &str = text::trim(content);
        if entry.unicode_len() == 0 {
            return false;
        }
        let limit: usize = self.limit_for_target(target);
        let existing: &str = self.content_of(target);
        let whole: String = if existing.unicode_len() == 0 {
            entry.to_owned()
        } else {
            text::concat3(existing, ENTRY_DELIMITER, entry)
        };
        let fit: String = Self::trim_to_fit(whole.as_str(), limit);
        if fit.as_str().unicode_len() > 0 {
            self.set_content(target, fit.as_str());
        } else {
            proof {
                lemma_delimiter();
            }
            let pieces: Vec<String> = text::split(entry, ENTRY_DELIMITER);
            let newest: &String = &pieces[pieces.len() - 1];
            assert(newest@ == text::texts(pieces@).last());
            self.set_content(target, newest.as_str());
        }
        true
    }

    /// Replaces the first `old_text` in a file. Gives whether there was one; an empty `old_text`
    /// is never found.
    pub fn replace(&mut self, target: MemoryTarget, old_text: &str, new_content: &str) -> (r: bool)
        ensures
            r == (old_text@.len() > 0 && text::includes(old(self).content(target), old_text@)),
            final(self).differs_in(old(self), target),
            final(self).content(target) == if r {
                replaced(old(self).content(target), old_text@, new_content@)
            } else {
                old(self).content(target)
            },
    {
        if old_text.unicode_len() == 0 {
            return false;
        }
        let raw: &str = self.content_of(target);
        proof {
            text::lemma_found_from(raw@, old_text@, 0);
        }
        let _size: usize = raw.unicode_len();
        match text::find(raw, old_text) {
            Some(pos) => {
                let end: usize = pos + old_text.unicode_len();
                let result: String = text::concat3(
                    text::first_chars(raw, pos),
                    new_content,
                    text::rest_from(raw, end),
                );
                self.set_content(target, result.as_str());
                true
            },
            None => false,
        }
    }

    /// Removes the first `old_text` from a file. Gives whether there was one; an empty
    /// `old_text` is never found.
    pub fn remove(&mut self, target: MemoryTarget, old_text: &str) -> (r: bool)
        ensures
            r == (old_text@.len() > 0 && text::includes(old(self).content(target), old_text@)),
            final(self).differs_in(old(self), target),
            final(self).content(target) == if r {
                replaced(old(self).content(target), old_text@, Seq::empty())
            } else {
                old(self).content(target)
            },
    {
        proof {
            reveal_strlit("");
            assert(""@ =~= Seq::<char>::empty());
        }
        self.replace(target, old_text, "")
    }

    /// What the model is shown of a file.
    pub fn snapshot(&self, target: MemoryTarget) -> (r: String)
        ensures
            r@ == snapshot_of(self.content(target)),
    {
        let entries: Vec<MemoryEntry> = self.load_entries(target);
        let ghost all = shown_texts(entries_in(self.content(target)));
        let mut shown: Vec<String> = Vec::new();
        let mut i: usize = 0;
        assert(text::texts(shown@) =~= all.take(0));
        while i < entries.len()
            invariant
                i <= entries@.len(),
                all == shown_texts(entries_in(self.content(target))),
                holds_entries(entries@, entries_in(self.content(target))),
                text::texts(shown@) == all.take(i as int),
            decreases entries@.len() - i,
        {
            let ghost before = text::texts(shown@);
            shown.push(Self::display_entry(&entries[i]).to_owned());
            proof {
                assert(text::texts(shown@) =~= before.push(shown@.last()@));
                assert(shown@.last()@ == all[i as int]);
                assert(all.take(i + 1) =~= all.take(i as int).push(all[i as int]));
            }
            i = i + 1;
        }
        assert(all.take(i as int) =~= all);
        text::join(&shown, ENTRY_DELIMITER)
    }

    /// The content with its oldest entries left out until it has at most `limit` characters.
    pub fn trim_to_fit(content: &str, limit: usize) -> (r: String)
        ensures
            r@ == fitted(content@, limit as int),
            r@.len() <= limit,
    {
        proof {
            lemma_delimiter();
        }
        if content.unicode_len() <= limit {
            return content.to_owned();
        }
        let pieces: Vec<String> = text::split(content, ENTRY_DELIMITER);
        let ghost all = text::texts(pieces@);
        let n: usize = pieces.len();
        let mut kept: usize = 0;
        let mut total: usize = 0;
        let mut more: bool = true;
        assert(all.skip(n as int) =~= Seq::<Seq<char>>::empty());
        while more && kept < n
            invariant
                n == pieces@.len(),
                kept <= n,
                all == text::texts(pieces@),
                total == newest(all, kept as int).len(),
                total <= limit,
                fitting_from(all, limit as int, 0) == fitting_from(all, limit as int, kept as int),
                !more ==> fitting_from(all, limit as int, 0) == kept,
            decreases n - kept + if more { 1int } else { 0int },
        {
            proof {
                lemma_newest_len(all, kept as int);
            }
            let len: usize = pieces[n - 1 - kept].as_str().unicode_len();
            let room: usize = limit - total;
            let gap: usize = if kept > 0 {
                3
            } else {
                0
            };
            if len > room || gap > room - len {
                more = false;
            } else {
                total = total + len + gap;
                kept = kept + 1;
            }
        }
        let mut rest: Vec<String> = Vec::new();
        let mut i: usize = n - kept;
        assert(text::texts(rest@) =~= all.subrange(n - kept, i as int));
        while i < n
            invariant
                n == pieces@.len(),
                kept <= n,
                n - kept <= i <= n,
                all == text::texts(pieces@),
                text::texts(rest@) == all.subrange(n - kept, i as int),
            decreases n - i,
        {
            let ghost before = text::texts(rest@);
            rest.push(pieces[i].clone());
            proof {
                assert(text::texts(rest@) =~= before.push(all[i as int]));
                assert(all.subrange(n - kept, i + 1) =~= before.push(all[i as int]));
            }
            i = i + 1;
        }
        assert(all.subrange(n - kept, n as int) =~= all.skip(n - kept));
        text::join(&rest, ENTRY_DELIMITER)
    }
}

// ---------------------------------------------------------------------------
// Laws
// ---------------------------------------------------------------------------

/// The two files have different names, so that a name stands for one file.
pub proof fn law_file_names_differ()
    ensures
        file_name(MemoryTarget::Memory) != file_name(MemoryTarget::User),
{
    reveal_strlit("MEMORY.md");
    reveal_strlit("USER.md");
    assert(file_name(MemoryTarget::Memory).len() == 9);
    assert(file_name(MemoryTarget::User).len() == 7);
}

proof fn lemma_last_piece(s: Seq<char>)
    ensures
        text::pieces(s, ENTRY_DELIMITER@).last().len() <= s.len(),
{
    lemma_delimiter();
    text::lemma_pieces_separable(s, ENTRY_DELIMITER@);
    let pieces = text::pieces(s, ENTRY_DELIMITER@);
    assert(pieces.len() > 0) by {
        text::lemma_found_from(s, ENTRY_DELIMITER@, 0);
    }
}

/// A file is within its limit after an entry was added that is so by itself. After one that is
/// not, the file is still within its limit, or holds nothing but the newest entry.
pub proof fn law_added_content_fits(existing: Seq<char>, content: Seq<char>, limit: int)
    requires
        0 <= limit,
        text::trimmed(content).len() > 0,
    ensures
        text::trimmed(content).len() <= limit ==> added(existing, content, limit).len() <= limit,
        added(existing, content, limit).len() <= limit || added(existing, content, limit)
            == text::pieces(text::trimmed(content), ENTRY_DELIMITER@).last(),
{
    let entry = text::trimmed(content);
    let whole = if existing.len() == 0 {
        entry
    } else {
        existing + ENTRY_DELIMITER@ + entry
    };
    let pieces = text::pieces(whole, ENTRY_DELIMITER@);
    assert(newest(pieces, 0) =~= Seq::empty());
    lemma_fitting(pieces, limit, 0);
    lemma_last_piece(entry);
}

proof fn lemma_entry_texts_push(pieces: Seq<Seq<char>>, entry: Seq<char>)
    requires
        text::trimmed(entry) == entry,
        entry.len() > 0,
    ensures
        entry_texts(pieces.push(entry)) == entry_texts(pieces).push(entry),
{
    assert(pieces.push(entry).drop_last() =~= pieces);
}

/// The text can be followed by a delimiter without making another one: it does not end with the
/// beginning of one.
pub open spec fn closed_end(s: Seq<char>) -> bool {
    !text::finishes(s, seq!['\n', '§'])
}

proof fn lemma_closed_end(s: Seq<char>)
    requires
        text::found(s, ENTRY_DELIMITER@) is None,
        closed_end(s),
    ensures
        text::found(s + ENTRY_DELIMITER@, ENTRY_DELIMITER@) == Some(s.len() as int),
{
    let d = ENTRY_DELIMITER@;
    let w = s + d;
    let n = s.len() as int;
    lemma_delimiter();
    text::lemma_found_from(s, d, 0);
    assert(w.subrange(n, n + 3) =~= d);
    assert forall|j: int| 0 <= j < n implies !text::occurs_at(w, d, j) by {
        if text::occurs_at(w, d, j) {
            let cut = w.subrange(j, j + 3);
            assert(cut[0] == w[j] && cut[1] == w[j + 1] && cut[2] == w[j + 2]);
            if j + 3 <= n {
                assert(s.subrange(j, j + 3) =~= cut);
                assert(text::occurs_at(s, d, j));
            } else if j + 2 == n {
                assert(s.subrange(j, n) =~= seq!['\n', '§']);
                assert(text::occurs_at(s, seq!['\n', '§'], j));
            } else {
                assert(w[j + 1] == d[0]);
            }
        }
    }
    text::lemma_found_is(w, d, 0, n);
}

/// Reading back what was added: when the entry holds no delimiter, the file does not end in the
/// middle of one and the limit allows it, the entries are those from before and the new one.
pub proof fn law_added_entry_is_loaded(existing: Seq<char>, content: Seq<char>, limit: int)
    requires
        ({
            let entry = text::trimmed(content);
            &&& entry.len() > 0
            &&& text::found(entry, ENTRY_DELIMITER@) is None
            &&& closed_end(text::pieces(existing, ENTRY_DELIMITER@).last())
            &&& entry.len() + if existing.len() == 0 {
                0
            } else {
                existing.len() + 3
            } <= limit
        }),
    ensures
        entries_in(added(existing, content, limit)) == entries_in(existing).push(
            text::trimmed(content),
        ),
{
    let d = ENTRY_DELIMITER@;
    let entry = text::trimmed(content);
    lemma_delimiter();
    text::lemma_trimmed_is(content);
    text::lemma_trimmed_is(entry);
    if existing.len() == 0 {
        assert(text::found(existing, d) is None);
        assert(existing.skip(0) =~= existing);
        assert(text::pieces(existing, d) =~= seq![existing]);
        text::lemma_trimmed_is(existing);
        assert(entries_in(existing) =~= Seq::empty()) by {
            assert(seq![existing].drop_last() =~= Seq::empty());
            assert(entry_texts(Seq::<Seq<char>>::empty()) =~= Seq::empty());
        }
        assert(entry.skip(0) =~= entry);
        assert(text::pieces(entry, d) =~= Seq::<Seq<char>>::empty().push(entry));
        lemma_entry_texts_push(Seq::empty(), entry);
    } else {
        let old_pieces = text::pieces(existing, d);
        let parts = old_pieces.push(entry);
        text::lemma_pieces_separable(existing, d);
        lemma_closed_end(old_pieces.last());
        assert(parts.drop_last() =~= old_pieces);
        assert(text::joined(parts, d) == existing + d + entry);
        assert(text::separable(parts, d)) by {
            assert forall|i: int| #![trigger parts[i]] 0 <= i < parts.len() - 1 implies text::found(
                parts[i] + d,
                d,
            ) == Some(parts[i].len() as int) by {
                assert(parts[i] == old_pieces[i]);
            }
        }
        text::lemma_pieces_of_joined(parts, d);
        lemma_entry_texts_push(old_pieces, entry);
    }
}

/// The newest entry is never the one that is left out: an entry without a delimiter is the last
/// one loaded after it was added, whatever was there before and whatever the limit is.
pub proof fn law_newest_entry_stays(existing: Seq<char>, content: Seq<char>, limit: int)
    requires
        ({
            let entry = text::trimmed(content);
            &&& entry.len() > 0
            &&& text::found(entry, ENTRY_DELIMITER@) is None
            &&& existing.len() > 0 ==> closed_end(text::pieces(existing, ENTRY_DELIMITER@).last())
            &&& 0 <= limit
        }),
    ensures
        entries_in(added(existing, content, limit)).len() > 0,
        entries_in(added(existing, content, limit)).last() == text::trimmed(content),
{
    let d = ENTRY_DELIMITER@;
    let entry = text::trimmed(content);
    lemma_delimiter();
    text::lemma_trimmed_is(content);
    text::lemma_trimmed_is(entry);
    assert(entry.skip(0) =~= entry);
    assert(text::pieces(entry, d) =~= Seq::<Seq<char>>::empty().push(entry));
    lemma_entry_texts_push(Seq::empty(), entry);
    if existing.len() == 0 {
        if entry.len() > limit {
            let alone = text::pieces(entry, d);
            assert(newest(alone, 0) =~= Seq::empty());
            lemma_newest_len(alone, 0);
        }
    } else {
        let old_pieces = text::pieces(existing, d);
        let parts = old_pieces.push(entry);
        let whole = existing + d + entry;
        text::lemma_pieces_separable(existing, d);
        lemma_closed_end(old_pieces.last());
        assert(parts.drop_last() =~= old_pieces);
        assert(text::separable(parts, d)) by {
            assert forall|i: int| #![trigger parts[i]] 0 <= i < parts.len() - 1 implies text::found(
                parts[i] + d,
                d,
            ) == Some(parts[i].len() as int) by {
                assert(parts[i] == old_pieces[i]);
            }
        }
        text::lemma_pieces_of_joined(parts, d);
        if whole.len() <= limit {
            lemma_entry_texts_push(old_pieces, entry);
        } else if entry.len() > limit {
            assert(newest(parts, 0) =~= Seq::empty());
            lemma_newest_len(parts, 0);
        } else {
            let n = parts.len() as int;
            assert(newest(parts, 0) =~= Seq::empty());
            lemma_newest_len(parts, 0);
            lemma_fitting(parts, limit, 1);
            let k = fitting_from(parts, limit, 0);
            let kept = parts.skip(n - k);
            assert(kept.last() == entry);
            assert(text::separable(kept, d)) by {
                assert forall|i: int| #![trigger kept[i]]
                    0 <= i < kept.len() - 1 implies text::found(kept[i] + d, d) == Some(
                    kept[i].len() as int,
                ) by {
                    assert(kept[i] == parts[n - k + i]);
                }
            }
            text::lemma_pieces_of_joined(kept, d);
            assert(kept.drop_last().push(entry) =~= kept);
            lemma_entry_texts_push(kept.drop_last(), entry);
        }
    }
}

/// A blocked entry never shows its content.
pub proof fn law_blocked_entries_are_hidden(raw: Seq<char>, i: int)
    requires
        0 <= i < entries_in(raw).len(),
        threatening(entries_in(raw)[i]),
    ensures
        shown_texts(entries_in(raw))[i] == "[BLOCKED: prompt injection detected]"@,
{
}

/// Removing a text is replacing it by nothing, and shortens the file by that text.
pub proof fn law_removing_shortens(content: Seq<char>, old_text: Seq<char>)
    requires
        text::includes(content, old_text),
    ensures
        replaced(content, old_text, Seq::empty()).len() == content.len() - old_text.len(),
{
    text::lemma_found_from(content, old_text, 0);
    let i = choose|i: int| text::occurs_at(content, old_text, i);
    assert(text::found(content, old_text) is Some);
}

/// Replacing puts the new text in the place of the first old one and leaves all around it; a text
/// that is not there leaves the file as it is.
pub proof fn law_the_first_one_is_replaced(
    a: Seq<char>,
    old_text: Seq<char>,
    b: Seq<char>,
    new_text: Seq<char>,
)
    requires
        forall|j: int| 0 <= j < a.len() ==> !text::occurs_at(a + old_text + b, old_text, j),
    ensures
        replaced(a + old_text + b, old_text, new_text) == a + new_text + b,
        !text::includes(a, old_text) ==> replaced(a, old_text, new_text) == a,
{
    let s = a + old_text + b;
    let n = a.len() as int;
    assert(s.subrange(n, n + old_text.len()) =~= old_text);
    text::lemma_found_is(s, old_text, 0, n);
    assert(s.take(n) =~= a);
    assert(s.skip(n + old_text.len()) =~= b);
    text::lemma_found_from(a, old_text, 0);
    if !text::includes(a, old_text) {
        match text::found(a, old_text) {
            Some(i) => {
                assert(text::occurs_at(a, old_text, i));
            },
            None => {},
        }
    }
}

/// Putting the old text back undoes a replacement.
pub proof fn law_replacing_back_restores(
    a: Seq<char>,
    old_text: Seq<char>,
    b: Seq<char>,
    new_text: Seq<char>,
)
    requires
        forall|j: int| 0 <= j < a.len() ==> !text::occurs_at(a + old_text + b, old_text, j),
        forall|j: int| 0 <= j < a.len() ==> !text::occurs_at(a + new_text + b, new_text, j),
    ensures
        replaced(replaced(a + old_text + b, old_text, new_text), new_text, old_text) == a + old_text
            + b,
{
    law_the_first_one_is_replaced(a, old_text, b, new_text);
    law_the_first_one_is_replaced(a, new_text, b, old_text);
}

/// Entries that were written with delimiters between them are read as they are and in order: none
/// is lost, changed or made up.
pub proof fn law_entries_are_read_back(entries: Seq<Seq<char>>)
    requires
        entries.len() > 0,
        forall|i: int|
            0 <= i < entries.len() ==> {
                &&& (#[trigger] entries[i]).len() > 0
                &&& !text::is_space(entries[i].first())
                &&& !text::is_space(entries[i].last())
                &&& text::found(entries[i], ENTRY_DELIMITER@) is None
                &&& closed_end(entries[i])
            },
    ensures
        entries_in(text::joined(entries, ENTRY_DELIMITER@)) == entries,
{
    let d = ENTRY_DELIMITER@;
    lemma_delimiter();
    assert(text::separable(entries, d)) by {
        assert forall|i: int| #![trigger entries[i]]
            0 <= i < entries.len() - 1 implies text::found(entries[i] + d, d) == Some(
            entries[i].len() as int,
        ) by {
            lemma_closed_end(entries[i]);
        }
        assert(entries.last() == entries[entries.len() - 1]);
    }
    text::lemma_pieces_of_joined(entries, d);
    lemma_trimmed_entries(entries);
}

proof fn lemma_trimmed_entries(entries: Seq<Seq<char>>)
    requires
        forall|i: int|
            0 <= i < entries.len() ==> (#[trigger] entries[i]).len() > 0 && !text::is_space(
                entries[i].first(),
            ) && !text::is_space(entries[i].last()),
    ensures
        entry_texts(entries) == entries,
    decreases entries.len(),
{
    if entries.len() > 0 {
        let front = entries.drop_last();
        assert forall|i: int| 0 <= i < front.len() implies (#[trigger] front[i]).len() > 0
            && !text::is_space(front[i].first()) && !text::is_space(front[i].last()) by {
            assert(front[i] == entries[i]);
        }
        lemma_trimmed_entries(front);
        assert(entries[entries.len() - 1] == entries.last());
        text::lemma_trimmed_is(entries.last());
        assert(front.push(entries.last()) =~= entries);
    } else {
        assert(entry_texts(entries) =~= entries);
    }
}

/// The model is shown every entry that is no threat, in full and in order, and a mark in the place
/// of every other.
pub proof fn law_safe_entries_are_shown(raw: Seq<char>, i: int, j: int)
    requires
        0 <= i < entries_in(raw).len(),
    ensures
        ({
            let entry = entries_in(raw)[i];
            let other = entries_in(raw)[j];
            &&& !threatening(entry) ==> text::includes(snapshot_of(raw), entry)
            &&& threatening(entry) ==> text::includes(
                snapshot_of(raw),
                "[BLOCKED: prompt injection detected]"@,
            )
            &&& i < j < entries_in(raw).len() && !threatening(entry) && !threatening(other)
                ==> text::stands_before(snapshot_of(raw), entry, other)
        }),
{
    let shown = shown_texts(entries_in(raw));
    assert(shown[i] == shown_text(entries_in(raw)[i], threatening(entries_in(raw)[i])));
    text::law_joined_holds_every_part(shown, ENTRY_DELIMITER@, i);
    if i < j < entries_in(raw).len() {
        assert(shown[j] == shown_text(entries_in(raw)[j], threatening(entries_in(raw)[j])));
        text::law_joined_keeps_order(shown, ENTRY_DELIMITER@, i, j);
    }
}

/// A content is a threat exactly when one of the five patterns is found in it.
pub proof fn law_every_pattern_counts(content: Seq<char>)
    ensures
        threatening(content) <==> pattern_found(THREAT_PATTERNS@[0]@, content) == Some(true)
            || pattern_found(THREAT_PATTERNS@[1]@, content) == Some(true) || pattern_found(
            THREAT_PATTERNS@[2]@,
            content,
        ) == Some(true) || pattern_found(THREAT_PATTERNS@[3]@, content) == Some(true)
            || pattern_found(THREAT_PATTERNS@[4]@, content) == Some(true),
{
    assert(threat_pattern(0) == THREAT_PATTERNS@[0]@);
    assert(threat_pattern(1) == THREAT_PATTERNS@[1]@);
    assert(threat_pattern(2) == THREAT_PATTERNS@[2]@);
    assert(threat_pattern(3) == THREAT_PATTERNS@[3]@);
    assert(threat_pattern(4) == THREAT_PATTERNS@[4]@);
}

proof fn lemma_fitting_most(pieces: Seq<Seq<char>>, limit: int, k: int, m: int)
    requires
        0 <= k <= m <= pieces.len(),
        newest(pieces, m).len() <= limit,
    ensures
        m <= fitting_from(pieces, limit, k),
    decreases pieces.len() - k,
{
    if k < m {
        lemma_newest_shorter(pieces, k + 1, m);
        lemma_fitting_most(pieces, limit, k + 1, m);
    } else if k < pieces.len() && newest(pieces, k + 1).len() <= limit {
        lemma_fitting_most(pieces, limit, k + 1, k + 1);
    }
}

proof fn lemma_newest_shorter(pieces: Seq<Seq<char>>, k: int, m: int)
    requires
        0 <= k <= m <= pieces.len(),
    ensures
        newest(pieces, k).len() <= newest(pieces, m).len(),
    decreases m - k,
{
    if k < m {
        lemma_newest_shorter(pieces, k, m - 1);
        lemma_newest_len(pieces, m - 1);
        if m - 1 == 0 {
            assert(newest(pieces, 0) =~= Seq::empty());
        }
    }
}

/// Trimming to a limit leaves out as little as it can: content that fits stays as it is; else the
/// newest entries stay, as many as fit, and the oldest go.
pub proof fn law_trimming_leaves_out_the_oldest(content: Seq<char>, limit: int, m: int)
    requires
        0 <= limit,
        0 <= m <= text::pieces(content, ENTRY_DELIMITER@).len(),
    ensures
        ({
            let pieces = text::pieces(content, ENTRY_DELIMITER@);
            let newest_m = text::joined(pieces.skip(pieces.len() - m), ENTRY_DELIMITER@);
            &&& fitted(content, limit).len() <= limit
            &&& content.len() <= limit ==> fitted(content, limit) == content
            &&& content.len() > limit ==> exists|k: int|
                0 <= k <= pieces.len() && fitted(content, limit) == #[trigger] newest(pieces, k) && (
                newest_m.len() <= limit ==> m <= k)
        }),
{
    let pieces = text::pieces(content, ENTRY_DELIMITER@);
    assert(newest(pieces, 0) =~= Seq::empty());
    lemma_fitting(pieces, limit, 0);
    let k = fitting_from(pieces, limit, 0);
    if newest(pieces, m).len() <= limit {
        lemma_fitting_most(pieces, limit, 0, m);
    }
    assert(newest(pieces, k) == newest(pieces, fitting_from(pieces, limit, 0)));
}

/// A store that differs from another in one file only has the same other file, the same paths and
/// the same limits.
pub proof fn law_other_file_stays(a: FileMemoryStore, b: FileMemoryStore)
    ensures
        a.differs_in(&b, MemoryTarget::Memory) ==> a.content(MemoryTarget::User) == b.user@,
        a.differs_in(&b, MemoryTarget::User) ==> a.content(MemoryTarget::Memory) == b.memory@,
        a.differs_in(&b, MemoryTarget::Memory) || a.differs_in(&b, MemoryTarget::User) ==> {
            &&& a.memory_path@ == b.memory_path@
            &&& a.user_path@ == b.user_path@
            &&& a.limit(MemoryTarget::Memory) == b.memory_char_limit
            &&& a.limit(MemoryTarget::User) == b.user_char_limit
        },
{
}

/// Entries are numbered from 0, hold their texts in order, and are blocked where they are a threat.
pub proof fn law_entries_are_numbered(
    entries: Seq<MemoryEntry>,
    texts: Seq<Seq<char>>,
    i: int,
)
    requires
        holds_entries(entries, texts),
        0 <= i < texts.len(),
    ensures
        entries.len() == texts.len(),
        entries[i].id == i,
        entries[i].content@ == texts[i],
        entries[i].blocked <==> threatening(texts[i]),
{
}

/// Where there is room, an added entry stands behind all that was there, which stays as it is; in
/// an empty file it stands alone. An entry of white space changes nothing.
pub proof fn law_entries_are_added_behind(existing: Seq<char>, content: Seq<char>, limit: int)
    ensures
        ({
            let t = text::trimmed(content);
            let r = added(existing, content, limit);
            &&& text::all_space(content) ==> r == existing
            &&& existing.len() == 0 && 0 < t.len() <= limit ==> r == t
            &&& existing.len() > 0 && t.len() > 0 && existing.len() + 3 + t.len() <= limit ==> r
                == existing + ENTRY_DELIMITER@ + t
        }),
{
    text::law_trimming_takes_only_space(content);
    lemma_delimiter();
}

} // verus!
