//! The application details that go with a failure notification.
use vstd::prelude::*;

verus! {

/// The part of an image reference after its last `:`; the whole reference
/// where it has none.
pub open spec fn last_segment(s: Seq<char>) -> Seq<char>
    decreases s.len(),
{
    if s.len() == 0 {
        s
    } else if s.last() == ':' {
        seq![]
    } else {
        last_segment(s.drop_last()).push(s.last())
    }
}

/// `s` with each two-character escape `\n` turned into a newline, read from
/// left to right.
pub open spec fn unescape_newlines(s: Seq<char>) -> Seq<char>
    decreases s.len(),
{
    if s.len() == 0 {
        s
    } else if s.len() >= 2 && s[0] == '\\' && s[1] == 'n' {
        seq!['\n'] + unescape_newlines(s.subrange(2, s.len() as int))
    } else {
        seq![s[0]] + unescape_newlines(s.drop_first())
    }
}

proof fn lemma_last_segment_from(s: Seq<char>, k: int)
    requires
        0 <= k <= s.len(),
        k == 0 || s[k - 1] == ':',
        forall|j: int| k <= j < s.len() ==> s[j] != ':',
    ensures
        last_segment(s) == s.subrange(k, s.len() as int),
    decreases s.len(),
{
    if s.len() == k {
        if k > 0 {
            assert(s.last() == ':');
        }
        assert(s.subrange(k, s.len() as int) =~= Seq::<char>::empty());
    } else {
        lemma_last_segment_from(s.drop_last(), k);
        assert(s.drop_last().subrange(k, s.len() - 1).push(s.last()) =~= s.subrange(
            k,
            s.len() as int,
        ));
    }
}

/// The readable part of an image reference: what follows its last `:`, or
/// all of it where there is none.
pub fn readable_image_id(version: &str) -> (r: &str)
    ensures
        r@ == last_segment(version@),
{
    let n = version.unicode_len();
    let mut i: usize = n;
    while i > 0 && version.get_char(i - 1) != ':'
        invariant
            i <= n == version@.len(),
            forall|j: int| i <= j < n ==> version@[j] != ':',
        decreases i,
    {
        i = i - 1;
    }
    proof {
        lemma_last_segment_from(version@, i as int);
    }
    version.substring_char(i, n)
}

/// Turns each `\n` escape of `message` into a newline.
pub fn unescape_message(message: &str) -> (r: String)
    ensures
        r@ == unescape_newlines(message@),
{
    let n = message.unicode_len();
    let mut r = String::new();
    let mut i: usize = 0;
    assert(message@.subrange(0, n as int) =~= message@);
    assert(r@ + unescape_newlines(message@) =~= unescape_newlines(message@));
    while i < n
        invariant
            i <= n == message@.len(),
            r@ + unescape_newlines(message@.subrange(i as int, n as int)) == unescape_newlines(
                message@,
            ),
        decreases n - i,
    {
        let ghost rest = message@.subrange(i as int, n as int);
        if i + 1 < n && message.get_char(i) == '\\' && message.get_char(i + 1) == 'n' {
            r.append("\n");
            proof {
                reveal_strlit("\n");
                assert(rest.subrange(2, rest.len() as int) =~= message@.subrange(i + 2, n as int));
                assert(r@ + unescape_newlines(message@.subrange(i + 2, n as int)) =~= r@.drop_last()
                    + unescape_newlines(rest));
            }
            i = i + 2;
        } else {
            r.append(message.substring_char(i, i + 1));
            proof {
                assert(rest.drop_first() =~= message@.subrange(i + 1, n as int));
                assert(r@ + unescape_newlines(message@.subrange(i + 1, n as int)) =~= r@.drop_last()
                    + unescape_newlines(rest));
            }
            i = i + 1;
        }
    }
    assert(message@.subrange(i as int, n as int) =~= Seq::<char>::empty());
    assert(r@ + Seq::<char>::empty() =~= r@);
    r
}

/// What a notification says about the application.
pub struct AppDetail {
    pub message: String,
    pub description: String,
    pub version: String,
    pub image_url: Option<String>,
}

/// The description text of a notification: the message with its escapes
/// turned into newlines, then the application and its readable version.
pub open spec fn description_text(message: Seq<char>, description: Seq<char>, version: Seq<
    char,
>) -> Seq<char> {
    unescape_newlines(message) + " \n *Application*: "@ + description + " \n *Version*: "@
        + last_segment(version)
}

impl AppDetail {
    pub fn new(message: String, description: String, version: String, image_url: Option<String>) -> (r: AppDetail)
        ensures
            r.message@ == message@,
            r.description@ == description@,
            r.version@ == version@,
            r.image_url == image_url,
    {
        AppDetail { message, description, version, image_url }
    }

    pub fn compute_description(&self) -> (r: String)
        ensures
            r@ == description_text(self.message@, self.description@, self.version@),
    {
        let version = readable_image_id(self.version.as_str());
        let mut r = unescape_message(self.message.as_str());
        r.append(" \n *Application*: ");
        r.append(self.description.as_str());
        r.append(" \n *Version*: ");
        r.append(version);
        r
    }
}

} // verus!
