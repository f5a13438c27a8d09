use vstd::prelude::*;

use crate::cursor::chars_of;
use crate::document::string_of;

verus! {

broadcast use vstd::string::group_string_axioms;

/// Where the line that starts at `i` ends: the index of the next line break,
/// or the length of the text.
pub open spec fn line_end(t: Seq<char>, i: int) -> int
    decreases t.len() - i,
{
    if i >= t.len() || i < 0 {
        t.len() as int
    } else if t[i] == '\n' {
        i
    } else {
        line_end(t, i + 1)
    }
}

/// Where the comment of `line` starts at or after `j`: the first `//`, or
/// the end of the line.
pub open spec fn comment_at(line: Seq<char>, j: int) -> int
    decreases line.len() - j,
{
    if j + 1 >= line.len() || j < 0 {
        line.len() as int
    } else if line[j] == '/' && line[j + 1] == '/' {
        j
    } else {
        comment_at(line, j + 1)
    }
}

/// A line up to its first `//`.
pub open spec fn before_comment(line: Seq<char>) -> Seq<char> {
    line.take(comment_at(line, 0))
}

/// The lines of `t` from the one that starts at `i`: each becomes a line
/// break followed by the line up to its first `//`.
pub open spec fn strip_from(t: Seq<char>, i: int) -> Seq<char>
    decreases t.len() - i,
{
    let e = line_end(t, i);
    let line = if 0 <= i <= t.len() { t.subrange(i, e) } else { seq![] };
    if 0 <= i < t.len() && e < t.len() {
        proof {
            lemma_line_end_bounds(t, i);
        }
        seq!['\n'] + before_comment(line) + strip_from(t, e + 1)
    } else {
        seq!['\n'] + before_comment(line)
    }
}

/// The text with its `//` comments taken out, each line preceded by a
/// line break.
pub open spec fn strip_comments(t: Seq<char>) -> Seq<char> {
    strip_from(t, 0)
}

/// Every occurrence of `pat` in `t`, from left to right and without
/// overlaps, replaced by `rep`.
pub open spec fn replace_all(t: Seq<char>, pat: Seq<char>, rep: Seq<char>) -> Seq<char>
    decreases t.len(),
{
    if pat.len() == 0 || t.len() < pat.len() {
        t
    } else if t.take(pat.len() as int) == pat {
        rep + replace_all(t.skip(pat.len() as int), pat, rep)
    } else {
        seq![t[0]] + replace_all(t.skip(1), pat, rep)
    }
}

pub proof fn lemma_line_end_bounds(t: Seq<char>, i: int)
    requires
        0 <= i <= t.len(),
    ensures
        i <= line_end(t, i) <= t.len(),
        line_end(t, i) < t.len() ==> t[line_end(t, i)] == '\n',
    decreases t.len() - i,
{
    if i < t.len() && t[i] != '\n' {
        lemma_line_end_bounds(t, i + 1);
    }
}

pub proof fn lemma_comment_at_bounds(line: Seq<char>, j: int)
    requires
        0 <= j,
    ensures
        comment_at(line, j) <= line.len(),
        comment_at(line, j) >= 0,
    decreases line.len() - j,
{
    if !(j + 1 >= line.len()) && !(line[j] == '/' && line[j + 1] == '/') {
        lemma_comment_at_bounds(line, j + 1);
    }
}

/// Appends `src[from..to]` to `out`.
fn push_range(out: &mut Vec<char>, src: &Vec<char>, from: usize, to: usize)
    requires
        from <= to <= src.len(),
    ensures
        final(out)@ == old(out)@ + src@.subrange(from as int, to as int),
{
    let mut k = from;
    let ghost start = out@;
    while k < to
        invariant
            from <= k <= to,
            to <= src.len(),
            out@ == start + src@.subrange(from as int, k as int),
        decreases to - k,
    {
        out.push(src[k]);
        k += 1;
    }
}

/// Takes out `//` comments: each line of `contents` becomes a line break
/// followed by the line up to its first `//`.
pub fn remove_comments(contents: String) -> (r: String)
    ensures
        r@ == strip_comments(contents@),
{
    let t = chars_of(contents.as_str());
    let mut out: Vec<char> = Vec::new();
    let mut start: usize = 0;
    loop
        invariant
            t@ == contents@,
            start <= t.len(),
            out@ + strip_from(t@, start as int) == strip_from(t@, 0),
        decreases t.len() - start,
    {
        let mut e = start;
        while e < t.len() && t[e] != '\n'
            invariant
                start <= e <= t.len(),
                line_end(t@, e as int) == line_end(t@, start as int),
            decreases t.len() - e,
        {
            e += 1;
        }
        proof {
            lemma_line_end_bounds(t@, start as int);
        }
        let ghost line = t@.subrange(start as int, e as int);
        let mut cut = start;
        while e - cut > 1 && !(t[cut] == '/' && t[cut + 1] == '/')
            invariant
                start <= cut <= e,
                e <= t.len(),
                line == t@.subrange(start as int, e as int),
                comment_at(line, cut - start) == comment_at(line, 0),
            decreases e - cut,
        {
            cut += 1;
        }
        if e - cut <= 1 {
            cut = e;
        }
        proof {
            lemma_comment_at_bounds(line, 0);
        }
        let ghost before = out@;
        out.push('\n');
        push_range(&mut out, &t, start, cut);
        if e < t.len() {
            start = e + 1;
        } else {
            return string_of(&out);
        }
    }
}

/// Whether `pat` occurs in `src` at `i`.
fn matches_at(src: &Vec<char>, i: usize, pat: &Vec<char>) -> (r: bool)
    requires
        i <= src.len(),
    ensures
        r == (pat.len() <= src.len() - i && src@.subrange(i as int, i + pat.len()) == pat@),
{
    if pat.len() > src.len() - i {
        return false;
    }
    let mut k: usize = 0;
    while k < pat.len()
        invariant
            k <= pat.len(),
            pat.len() <= src.len() - i,
            forall|m: int| 0 <= m < k ==> src@[i + m] == pat@[m],
        decreases pat.len() - k,
    {
        if src[i + k] != pat[k] {
            return false;
        }
        k += 1;
    }
    assert(src@.subrange(i as int, i + pat.len()) =~= pat@);
    true
}

/// `src` with every occurrence of `pat`, from left to right and without
/// overlaps, replaced by `rep`.
fn replace_chars(src: &Vec<char>, pat: &Vec<char>, rep: &Vec<char>) -> (r: Vec<char>)
    requires
        pat.len() > 0,
    ensures
        r@ == replace_all(src@, pat@, rep@),
{
    let mut out: Vec<char> = Vec::new();
    let mut i: usize = 0;
    assert(src@.skip(0) =~= src@);
    while i < src.len()
        invariant
            pat.len() > 0,
            i <= src.len(),
            out@ + replace_all(src@.skip(i as int), pat@, rep@) == replace_all(src@, pat@, rep@),
        decreases src.len() - i,
    {
        let ghost rest = src@.skip(i as int);
        if matches_at(src, i, pat) {
            assert(rest.take(pat.len() as int) =~= src@.subrange(i as int, i + pat.len()));
            assert(rest.skip(pat.len() as int) =~= src@.skip(i + pat.len()));
            push_range(&mut out, rep, 0, rep.len());
            i += pat.len();
        } else {
            if pat.len() <= src.len() - i {
                assert(rest.take(pat.len() as int) =~= src@.subrange(i as int, i + pat.len()));
            }
            assert(rest.skip(1) =~= src@.skip(i + 1));
            out.push(src[i]);
            i += 1;
        }
    }
    out
}

/// `contents` with every `pat` replaced by `rep`.
fn replace_str(contents: &String, pat: &str, rep: &str) -> (r: String)
    requires
        pat@.len() > 0,
    ensures
        r@ == replace_all(contents@, pat@, rep@),
{
    let src = chars_of(contents.as_str());
    let p = chars_of(pat);
    let q = chars_of(rep);
    let out = replace_chars(&src, &p, &q);
    string_of(&out)
}

/// `#newline` stands for a line break.
pub fn replace_newline(contents: String) -> (r: String)
    ensures
        r@ == replace_all(contents@, "#newline"@, "\n"@),
{
    proof {
        reveal_strlit("#newline");
    }
    replace_str(&contents, "#newline", "\n")
}

/// A line that starts with `#bul ` becomes a bullet point, after a blank
/// line.
pub fn replace_bullet(contents: String) -> (r: String)
    ensures
        r@ == replace_all(contents@, "\n#bul "@, "\n\n\u{2022} "@),
{
    proof {
        reveal_strlit("\n#bul ");
    }
    replace_str(&contents, "\n#bul ", "\n\n\u{2022} ")
}

/// A line that starts with `#left_div{` or `#right_div{` becomes a
/// `#div(...)` placed on the left or on the right half of the slide.
pub fn replace_divs(contents: String) -> (r: String)
    ensures
        r@ == replace_all(
            replace_all(contents@, "\n#left_div{"@, "\n#div(position=[0.05, 0.8], width=0.4, align=\"left\"){"@),
            "\n#right_div{"@,
            "\n#div(position=[0.505, 0.8], width=0.4, align=\"left\"){"@,
        ),
{
    proof {
        reveal_strlit("\n#left_div{");
        reveal_strlit("\n#right_div{");
    }
    let clean_contents = replace_str(
        &contents,
        "\n#left_div{",
        "\n#div(position=[0.05, 0.8], width=0.4, align=\"left\"){",
    );
    replace_str(&clean_contents, "\n#right_div{", "\n#div(position=[0.505, 0.8], width=0.4, align=\"left\"){")
}

} // verus!
