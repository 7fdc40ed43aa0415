//! One template of the store: where it lives, its qualified title and, once
//! read, its body.

use std::path::PathBuf;

use colored::Colorize;
use vstd::prelude::*;
use vstd::utf8::encode_utf8;

verus! {

#[verifier::external_type_specification]
#[verifier::external_body]
pub struct ExPathBuf(PathBuf);

/// Relies on `PathBuf`'s `Clone`, which copies the path unchanged.
pub assume_specification[ <PathBuf as Clone>::clone ](p: &PathBuf) -> (r: PathBuf)
    ensures
        r == *p,
;

/// What `str::to_lowercase` returns for a text: it depends on the characters
/// alone.
pub uninterp spec fn lower_of(s: Seq<char>) -> Seq<char>;

/// Relies on `str::to_lowercase`.
#[verifier::external_body]
fn lowercase(s: &str) -> (r: String)
    ensures
        r@ == lower_of(s@),
{
    s.to_lowercase()
}

/// The text of an ANSI "select graphic rendition" sequence.
pub open spec fn sgr(code: Seq<char>) -> Seq<char> {
    seq!['\x1b', '['] + code + seq!['m']
}

pub open spec fn green_code() -> Seq<char> {
    seq!['3', '2']
}

pub open spec fn magenta_code() -> Seq<char> {
    seq!['3', '5']
}

pub open spec fn reset_code() -> Seq<char> {
    seq!['0']
}

/// `s` with `style` inserted after each reset sequence in it, scanning from
/// the start.
pub open spec fn restyle_resets(s: Seq<char>, style: Seq<char>) -> Seq<char>
    decreases s.len(),
{
    if s.len() == 0 {
        s
    } else if s.len() >= 4 && s.subrange(0, 4) == sgr(reset_code()) {
        sgr(reset_code()) + style + restyle_resets(s.subrange(4, s.len() as int), style)
    } else {
        seq![s[0]] + restyle_resets(s.drop_first(), style)
    }
}

/// `r` is a rendering of `s` in the colour `code`: the text itself when the
/// terminal is not coloured, else the text between the colour and a reset,
/// with the colour restored after each reset that the text holds.
pub open spec fn painted(s: Seq<char>, code: Seq<char>, r: Seq<char>) -> bool {
    r == s || r == sgr(code) + restyle_resets(s, sgr(code)) + sgr(reset_code())
}

/// Relies on `colored::Colorize::green` and the `Display` of the
/// `ColoredString` it returns; whether colour is applied depends on the
/// environment.
#[verifier::external_body]
fn paint_green(s: &str) -> (r: String)
    ensures
        painted(s@, green_code(), r@),
{
    s.green().to_string()
}

/// Relies on `colored::Colorize::magenta` and the `Display` of the
/// `ColoredString` it returns; whether colour is applied depends on the
/// environment.
#[verifier::external_body]
fn paint_magenta(s: &str) -> (r: String)
    ensures
        painted(s@, magenta_code(), r@),
{
    s.magenta().to_string()
}

/// The extension that marks a file as a template.
pub open spec fn template_ext() -> Seq<char> {
    seq!['.', 'g', 'i', 't', 'i', 'g', 'n', 'o', 'r', 'e']
}

/// The name of the directory whose templates carry no prefix.
pub open spec fn root_dir_name() -> Seq<char> {
    seq!['i', 'g', 'n', 'o', 'r', 'e']
}

pub open spec fn ends_with(s: Seq<char>, suffix: Seq<char>) -> bool {
    suffix.len() <= s.len() && s.subrange(s.len() - suffix.len(), s.len() as int) == suffix
}

/// A file is a template when its extension is the template extension: the
/// name ends with it and has something before it.
pub open spec fn is_template_file_name(file_name: Seq<char>) -> bool {
    ends_with(file_name, template_ext()) && file_name.len() > template_ext().len()
}

/// The name of a template file without its extension.
pub open spec fn without_ext(file_name: Seq<char>) -> Seq<char> {
    file_name.subrange(0, file_name.len() - template_ext().len())
}

/// The prefix that a template gets from the name of its directory.
pub open spec fn prefix_of_dir(dir_name: Seq<char>) -> Seq<char> {
    if dir_name == root_dir_name() {
        Seq::empty()
    } else {
        lower_of(dir_name)
    }
}

/// Directories that are never searched for templates.
pub open spec fn is_pruned_dir_name(dir_name: Seq<char>) -> bool {
    dir_name == seq!['.', 'g', 'i', 't'] || dir_name == seq!['.', 'g', 'i', 't', 'h', 'u', 'b']
}

/// The title under which a template is known: `prefix:name`, or the bare
/// name when the prefix is empty.
pub open spec fn title_of(prefix: Seq<char>, name: Seq<char>) -> Seq<char> {
    if prefix.len() == 0 {
        name
    } else {
        prefix + seq![':'] + name
    }
}

pub open spec fn hashes(n: nat) -> Seq<char> {
    Seq::new(n, |_i: int| '#')
}

/// The block that a template contributes to a generated file: its name framed
/// by lines of `#`, four longer than the name's UTF-8 encoding, then its body.
pub open spec fn block_of(name: Seq<char>, body: Seq<char>) -> Seq<char> {
    let bar = hashes(encode_utf8(name).len() + 4);
    seq!['\n'] + bar + seq!['\n', '#', ' '] + name + seq![' ', '#', '\n'] + bar + seq!['\n', '\n']
        + body + seq!['\n', '\n', '\n']
}

pub struct TemplateEntryView {
    pub prefix: Seq<char>,
    pub name: Seq<char>,
    pub template: Option<Seq<char>>,
}

impl TemplateEntryView {
    pub open spec fn title(self) -> Seq<char> {
        title_of(self.prefix, self.name)
    }

    pub open spec fn block(self) -> Seq<char> {
        block_of(self.name, self.template->0)
    }
}

/// A plain template: a name and its body.
pub struct IgnoreTemplate {
    pub name: String,
    pub template: String,
}

/// A template of the store. Its body is held only once it has been read.
pub struct TemplateEntry {
    prefix: String,
    name: String,
    template: Option<String>,
    path: PathBuf,
}

impl View for TemplateEntry {
    type V = TemplateEntryView;

    closed spec fn view(&self) -> TemplateEntryView {
        TemplateEntryView {
            prefix: self.prefix@,
            name: self.name@,
            template: match self.template {
                Some(t) => Some(t@),
                None => None,
            },
        }
    }
}

/// Whether `a` and `b` hold the same text.
fn same_text(a: &str, b: &str) -> (r: bool)
    ensures
        r == (a@ == b@),
{
    a.to_owned() == b.to_owned()
}

/// Whether the first `len` characters of `s` end with `suffix`.
fn prefix_ends_with(s: &str, len: usize, suffix: &str) -> (r: bool)
    requires
        len <= s@.len(),
    ensures
        r == ends_with(s@.subrange(0, len as int), suffix@),
{
    let n = suffix.unicode_len();
    if n > len {
        return false;
    }
    let tail = s.substring_char(len - n, len);
    let r = same_text(tail, suffix);
    proof {
        assert(s@.subrange(0, len as int).subrange(len - n, len as int) =~= tail@);
    }
    r
}

/// The views of a sequence of borrowed templates.
pub open spec fn views(es: Seq<&TemplateEntry>) -> Seq<TemplateEntryView> {
    es.map_values(|e: &TemplateEntry| e@)
}

/// Whether a directory met while walking the store is left out, with
/// everything below it.
pub fn is_pruned_dir(dir_name: &str) -> (r: bool)
    ensures
        r == is_pruned_dir_name(dir_name@),
{
    let git = ".git";
    let github = ".github";
    proof {
        reveal_strlit(".git");
        reveal_strlit(".github");
        assert(git@ =~= seq!['.', 'g', 'i', 't']);
        assert(github@ =~= seq!['.', 'g', 'i', 't', 'h', 'u', 'b']);
    }
    same_text(dir_name, git) || same_text(dir_name, github)
}

impl TemplateEntry {
    /// Where the template's body is read from.
    pub closed spec fn spec_path(&self) -> PathBuf {
        self.path
    }

    /// A template whose body has not been read yet.
    pub fn new(prefix: String, name: String, path: PathBuf) -> (r: TemplateEntry)
        ensures
            r@ == (TemplateEntryView { prefix: prefix@, name: name@, template: None }),
            r.spec_path() == path,
    {
        TemplateEntry { prefix, name, template: None, path }
    }

    /// The template for a file found while walking the store, or `None` when
    /// the file is no template. `file_name` is the file's name, `dir_name` the
    /// name of the directory that holds it.
    pub fn from_file(file_name: &str, dir_name: &str, path: PathBuf) -> (r: Option<TemplateEntry>)
        ensures
            r is Some <==> is_template_file_name(file_name@),
            r is Some ==> r->0@ == (TemplateEntryView {
                prefix: prefix_of_dir(dir_name@),
                name: without_ext(file_name@),
                template: None,
            }),
            r is Some ==> r->0.spec_path() == path,
    {
        let ext = ".gitignore";
        proof {
            reveal_strlit(".gitignore");
            assert(ext@ =~= template_ext());
        }
        let len = file_name.unicode_len();
        proof {
            assert(file_name@.subrange(0, len as int) =~= file_name@);
        }
        if len <= 10 || !prefix_ends_with(file_name, len, ext) {
            return None;
        }
        let name = file_name.substring_char(0, len - 10).to_owned();
        let root = "ignore";
        proof {
            reveal_strlit("ignore");
            assert(root@ =~= root_dir_name());
        }
        let prefix = if same_text(dir_name, root) {
            String::new()
        } else {
            lowercase(dir_name)
        };
        Some(TemplateEntry::new(prefix, name, path))
    }

    /// A copy of the name.
    pub fn name_owned(&self) -> (r: String)
        ensures
            r@ == self@.name,
    {
        self.name.clone()
    }

    pub fn name(&self) -> (r: &str)
        ensures
            r@ == self@.name,
    {
        self.name.as_str()
    }

    pub fn prefix(&self) -> (r: &str)
        ensures
            r@ == self@.prefix,
    {
        self.prefix.as_str()
    }

    /// Where the template's body is read from.
    pub fn path(&self) -> (r: &PathBuf)
        ensures
            *r == self.spec_path(),
    {
        &self.path
    }

    /// The same template with `template` as its body.
    pub fn with_template(&self, template: String) -> (r: TemplateEntry)
        ensures
            r@ == (TemplateEntryView { template: Some(template@), ..self@ }),
            r.spec_path() == self.spec_path(),
    {
        TemplateEntry {
            prefix: self.prefix.clone(),
            name: self.name.clone(),
            template: Some(template),
            path: self.path.clone(),
        }
    }

    /// The body, once it has been read.
    pub fn template(&self) -> (r: Option<&String>)
        ensures
            r is Some <==> self@.template is Some,
            r is Some ==> self@.template == Some(r->0@),
    {
        match &self.template {
            Some(template) => Some(template),
            None => None,
        }
    }

    /// The title under which the template is known.
    pub fn title(&self) -> (r: String)
        ensures
            r@ == self@.title(),
    {
        if self.prefix.as_str().is_empty() {
            self.name.clone()
        } else {
            let sep = ":";
            proof {
                reveal_strlit(":");
            }
            let mut title = self.prefix.clone();
            title.append(sep);
            title.append(self.name.as_str());
            title
        }
    }

    /// The title, with the prefix and the separator coloured for a terminal.
    pub fn title_colored(&self) -> (r: String)
        ensures
            self@.prefix.len() == 0 ==> r@ == self@.name,
            self@.prefix.len() > 0 ==> exists|p: Seq<char>, s: Seq<char>|
                painted(self@.prefix, green_code(), p) && painted(seq![':'], magenta_code(), s)
                    && r@ == p + s + self@.name,
    {
        if self.prefix.as_str().is_empty() {
            self.name.clone()
        } else {
            let sep = ":";
            proof {
                reveal_strlit(":");
            }
            proof {
                assert(sep@ =~= seq![':']);
            }
            let p = paint_green(self.prefix.as_str());
            let s = paint_magenta(sep);
            let mut title = p.clone();
            title.append(s.as_str());
            title.append(self.name.as_str());
            proof {
                assert(title@ == p@ + s@ + self@.name);
            }
            title
        }
    }

    /// The block that this template contributes to a generated file.
    pub fn to_string(&self) -> (r: String)
        requires
            self@.template is Some,
        ensures
            r@ == self@.block(),
    {
        let name = self.name.as_str();
        let template = self.template.as_ref().unwrap();
        let hash = "#";
        proof {
            reveal_strlit("#");
        }
        let mut bar = String::new();
        let n = name.as_bytes().len();
        let mut i: usize = 0;
        while i < n
            invariant
                i <= n,
                hash@ == seq!['#'],
                bar@ == hashes(i as nat),
            decreases n - i,
        {
            bar.append(hash);
            proof {
                assert(bar@ =~= hashes((i + 1) as nat));
            }
            i = i + 1;
        }
        let mut k: usize = 0;
        while k < 4
            invariant
                k <= 4,
                hash@ == seq!['#'],
                bar@ == hashes((n + k) as nat),
            decreases 4 - k,
        {
            bar.append(hash);
            proof {
                assert(bar@ =~= hashes((n + k + 1) as nat));
            }
            k = k + 1;
        }
        let open = "\n";
        let head = "\n# ";
        let tail = " #\n";
        let gap = "\n\n";
        let close = "\n\n\n";
        proof {
            reveal_strlit("\n");
            reveal_strlit("\n# ");
            reveal_strlit(" #\n");
            reveal_strlit("\n\n");
            reveal_strlit("\n\n\n");
            assert(open@ =~= seq!['\n']);
            assert(head@ =~= seq!['\n', '#', ' ']);
            assert(tail@ =~= seq![' ', '#', '\n']);
            assert(gap@ =~= seq!['\n', '\n']);
            assert(close@ =~= seq!['\n', '\n', '\n']);
        }
        let mut r = String::new();
        r.append(open);
        r.append(bar.as_str());
        r.append(head);
        r.append(name);
        r.append(tail);
        r.append(bar.as_str());
        r.append(gap);
        r.append(template.as_str());
        r.append(close);
        proof {
            assert(r@ =~= self@.block());
        }
        r
    }
}

} // verus!
