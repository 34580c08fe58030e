//! The names of blobs. A name is made of the token of a time, the source of
//! a sounding type and the short name of a site, and it can be taken apart
//! again: two names are the same only where all three parts are.

use vstd::prelude::*;
use crate::trusted::{format_time, formatted_time};
use vstd::string::StringExecFns;

verus! {

/// The token of an initialization time, given in seconds since the start of
/// 1970: year, month and day, a `T`, hour and minute, and a `Z`. `None`
/// where no calendar date stands for the time.
pub open spec fn init_time_token(seconds: i64) -> Option<Seq<char>> {
    formatted_time(seconds, "%Y-%m-%dT%H%MZ"@)
}

/// What stands for a character inside a name: `%5F` for the `_` that joins
/// the parts of a name, `%25` for the `%` that starts such a code, and any
/// other character as it is.
pub open spec fn escaped_char(c: char) -> Seq<char> {
    if c == '_' {
        seq!['%', '5', 'F']
    } else if c == '%' {
        seq!['%', '2', '5']
    } else {
        seq![c]
    }
}

/// A text as it stands inside a name: character by character what
/// `escaped_char` gives.
pub open spec fn escaped(text: Seq<char>) -> Seq<char>
    decreases text.len(),
{
    if text.len() == 0 {
        text
    } else {
        escaped_char(text[0]) + escaped(text.drop_first())
    }
}

/// The name of the blob for a file: the token of its time, the source of
/// its type and the short name of its site, the last two escaped, joined by
/// `_`, and `.gz`.
pub open spec fn blob_name(token: Seq<char>, source: Seq<char>, short_name: Seq<char>) -> Seq<
    char,
> {
    token + seq!['_'] + escaped(source) + seq!['_'] + escaped(short_name) + seq!['.', 'g', 'z']
}

/// An escaped text holds no `_`.
pub proof fn lemma_escaped_has_no_separator(text: Seq<char>)
    ensures
        forall|i: int| 0 <= i < escaped(text).len() ==> #[trigger] escaped(text)[i] != '_',
    decreases text.len(),
{
    if text.len() > 0 {
        lemma_escaped_has_no_separator(text.drop_first());
        let head = escaped_char(text[0]);
        let tail = escaped(text.drop_first());
        assert forall|i: int| 0 <= i < escaped(text).len() implies #[trigger] escaped(text)[i]
            != '_' by {
            if i < head.len() {
                assert(escaped(text)[i] == head[i]);
            } else {
                assert(escaped(text)[i] == tail[i - head.len()]);
            }
        }
    }
}

/// A text with one more character is escaped to the escaped text and then
/// what stands for the character.
pub proof fn lemma_escaped_push(text: Seq<char>, c: char)
    ensures
        escaped(text.push(c)) == escaped(text) + escaped_char(c),
    decreases text.len(),
{
    let more = text.push(c);
    if text.len() == 0 {
        assert(more.drop_first() =~= Seq::<char>::empty());
        assert(escaped(more) =~= escaped_char(c) + escaped(more.drop_first()));
        assert(escaped(more) =~= escaped(text) + escaped_char(c));
    } else {
        assert(more.drop_first() =~= text.drop_first().push(c));
        assert(more[0] == text[0]);
        lemma_escaped_push(text.drop_first(), c);
        assert(escaped(more) =~= escaped(text) + escaped_char(c));
    }
}

/// Escaping is one-to-one: two texts that are escaped to the same text are
/// the same text.
pub proof fn escaped_is_one_to_one(a: Seq<char>, b: Seq<char>)
    requires
        escaped(a) == escaped(b),
    ensures
        a == b,
    decreases a.len(),
{
    if a.len() == 0 {
        if b.len() > 0 {
            assert(escaped(b).len() >= escaped_char(b[0]).len());
        }
        assert(a =~= b);
    } else if b.len() == 0 {
        assert(escaped(a).len() >= escaped_char(a[0]).len());
    } else {
        let code_a = escaped_char(a[0]);
        let code_b = escaped_char(b[0]);
        let rest_a = escaped(a.drop_first());
        let rest_b = escaped(b.drop_first());
        let whole = escaped(a);
        assert(whole == code_a + rest_a);
        assert(whole == code_b + rest_b);
        // The first character says whether a code follows, the second which.
        assert(whole[0] == code_a[0] && whole[0] == code_b[0]);
        if code_a.len() == 3 {
            assert(whole[1] == code_a[1]);
        }
        if code_b.len() == 3 {
            assert(whole[1] == code_b[1]);
        }
        assert(a[0] == b[0]);
        assert(rest_a =~= whole.subrange(code_a.len() as int, whole.len() as int));
        assert(rest_b =~= whole.subrange(code_b.len() as int, whole.len() as int));
        escaped_is_one_to_one(a.drop_first(), b.drop_first());
        assert(a =~= seq![a[0]] + a.drop_first());
        assert(b =~= seq![b[0]] + b.drop_first());
    }
}

/// Two texts that end with a `_` and then a text without `_` each, and that
/// are the same text, have the same text before the `_` and the same after.
proof fn lemma_split_at_last_separator(
    front_a: Seq<char>,
    back_a: Seq<char>,
    front_b: Seq<char>,
    back_b: Seq<char>,
)
    requires
        front_a + seq!['_'] + back_a == front_b + seq!['_'] + back_b,
        forall|i: int| 0 <= i < back_a.len() ==> #[trigger] back_a[i] != '_',
        forall|i: int| 0 <= i < back_b.len() ==> #[trigger] back_b[i] != '_',
    ensures
        front_a == front_b,
        back_a == back_b,
{
    let whole_a = front_a + seq!['_'] + back_a;
    let whole_b = front_b + seq!['_'] + back_b;
    assert(whole_a.len() == front_a.len() + 1 + back_a.len());
    assert(whole_b.len() == front_b.len() + 1 + back_b.len());
    if back_a.len() < back_b.len() {
        // The `_` of the one would lie inside the back of the other.
        let at = front_a.len() as int;
        assert(whole_a[at] == '_');
        assert(whole_b[at] == back_b[at - front_b.len() - 1]);
    }
    if back_b.len() < back_a.len() {
        let at = front_b.len() as int;
        assert(whole_b[at] == '_');
        assert(whole_a[at] == back_a[at - front_a.len() - 1]);
    }
    assert(front_a =~= whole_a.subrange(0, front_a.len() as int));
    assert(front_b =~= whole_b.subrange(0, front_b.len() as int));
    assert(back_a =~= whole_a.subrange(front_a.len() as int + 1, whole_a.len() as int));
    assert(back_b =~= whole_b.subrange(front_b.len() as int + 1, whole_b.len() as int));
}

/// Names are one-to-one: two names are the same only where the tokens, the
/// sources and the short names are. So the file of one site, type and
/// minute never takes the blob of another.
pub proof fn blob_name_is_one_to_one(
    token_a: Seq<char>,
    source_a: Seq<char>,
    short_name_a: Seq<char>,
    token_b: Seq<char>,
    source_b: Seq<char>,
    short_name_b: Seq<char>,
)
    requires
        blob_name(token_a, source_a, short_name_a) == blob_name(token_b, source_b, short_name_b),
    ensures
        token_a == token_b,
        source_a == source_b,
        short_name_a == short_name_b,
{
    let ending = seq!['.', 'g', 'z'];
    let stem_a = token_a + seq!['_'] + escaped(source_a) + seq!['_'] + escaped(short_name_a);
    let stem_b = token_b + seq!['_'] + escaped(source_b) + seq!['_'] + escaped(short_name_b);
    let name_a = blob_name(token_a, source_a, short_name_a);
    let name_b = blob_name(token_b, source_b, short_name_b);
    assert(name_a == stem_a + ending);
    assert(name_b == stem_b + ending);
    assert(stem_a =~= name_a.subrange(0, name_a.len() - 3));
    assert(stem_b =~= name_b.subrange(0, name_b.len() - 3));
    lemma_escaped_has_no_separator(source_a);
    lemma_escaped_has_no_separator(source_b);
    lemma_escaped_has_no_separator(short_name_a);
    lemma_escaped_has_no_separator(short_name_b);
    lemma_split_at_last_separator(
        token_a + seq!['_'] + escaped(source_a),
        escaped(short_name_a),
        token_b + seq!['_'] + escaped(source_b),
        escaped(short_name_b),
    );
    lemma_split_at_last_separator(token_a, escaped(source_a), token_b, escaped(source_b));
    escaped_is_one_to_one(source_a, source_b);
    escaped_is_one_to_one(short_name_a, short_name_b);
}

/// A text as it stands inside a name.
pub fn escape(text: &str) -> (r: String)
    ensures
        r@ == escaped(text@),
{
    let len = text.unicode_len();
    let mut r = String::new();
    let mut i: usize = 0;
    assert(text@.take(0) =~= Seq::<char>::empty());
    while i < len
        invariant
            0 <= i <= len,
            len == text@.len(),
            r@ == escaped(text@.take(i as int)),
        decreases len - i,
    {
        let c = text.get_char(i);
        proof {
            assert(text@.take(i + 1) =~= text@.take(i as int).push(c));
            lemma_escaped_push(text@.take(i as int), c);
            reveal_strlit("%5F");
            reveal_strlit("%25");
            assert("%5F"@ =~= seq!['%', '5', 'F']);
            assert("%25"@ =~= seq!['%', '2', '5']);
        }
        if c == '_' {
            r.append("%5F");
        } else if c == '%' {
            r.append("%25");
        } else {
            let same = text.substring_char(i, i + 1);
            assert(same@ =~= seq![c]);
            r.append(same);
        }
        i = i + 1;
    }
    assert(text@.take(len as int) =~= text@);
    r
}

/// The name of the blob for a file, from the token of its time, the source
/// of its type and the short name of its site.
pub fn file_name_from_token(token: &str, source: &str, short_name: &str) -> (r: String)
    ensures
        r@ == blob_name(token@, source@, short_name@),
{
    proof {
        reveal_strlit("_");
        reveal_strlit(".gz");
        assert("_"@ =~= seq!['_']);
        assert(".gz"@ =~= seq!['.', 'g', 'z']);
    }
    let source = escape(source);
    let short_name = escape(short_name);
    String::from_str(token).concat("_").concat(source.as_str()).concat("_").concat(
        short_name.as_str(),
    ).concat(".gz")
}

/// The token of an initialization time, given in seconds since the start of
/// 1970. `None` where no calendar date stands for the time.
pub fn time_token(seconds: i64) -> (r: Option<String>)
    ensures
        r matches Some(token) ==> init_time_token(seconds) == Some(token@),
        r is None ==> init_time_token(seconds) is None,
{
    format_time(seconds, "%Y-%m-%dT%H%MZ")
}

} // verus!
