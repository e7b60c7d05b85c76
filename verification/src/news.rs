//! News data: the article shapes the reader works with, and the formatting
//! of articles into display lines. Fetching and printing live outside the
//! library.

use vstd::prelude::*;
use crate::digits::{dec_digits, push_dec};
use crate::text::{chars_vec, string_from_chars};

verus! {

/// Represents a single news article.
pub struct NewsArticle {
    /// The title of the article.
    pub title: String,
    /// A brief description of the article.
    pub description: Option<String>,
    /// The URL to the full article.
    pub url: String,
}

/// Represents the structure of the API's response.
pub struct NewsApiResponse {
    /// A list of articles returned by the API.
    pub articles: Vec<NewsArticle>,
}

/// The display lines for one article, shown under the one-based number
/// `num`: a spacing line, the numbered title, the description when there is
/// one, and the link line.
pub open spec fn article_lines(a: NewsArticle, num: nat) -> Seq<Seq<char>> {
    let head = seq![Seq::<char>::empty(), seq!['['] + dec_digits(num) + seq![']', ' '] + a.title@];
    let desc = match a.description {
        Some(d) => seq![seq![' ', ' ', ' ', ' '] + d@],
        None => Seq::<Seq<char>>::empty(),
    };
    let link = seq![
        seq![' ', ' ', ' ', ' ', 'R', 'e', 'a', 'd', ' ', 'm', 'o', 'r', 'e', ':', ' '] + a.url@,
    ];
    head + desc + link
}

/// The display lines for the articles from index `k` on, at most `limit`
/// articles in all.
pub open spec fn news_lines_from(articles: Seq<NewsArticle>, k: int, limit: int) -> Seq<Seq<char>>
    decreases articles.len() - k,
{
    if k < 0 || k >= limit || k >= articles.len() {
        Seq::empty()
    } else {
        article_lines(articles[k], (k + 1) as nat) + news_lines_from(articles, k + 1, limit)
    }
}

fn push_article_lines(a: &NewsArticle, num: usize, out: &mut Vec<String>)
    ensures
        final(out)@.len() == old(out)@.len() + article_lines(*a, num as nat).len(),
        forall|i: int| 0 <= i < old(out)@.len() ==> final(out)@[i] == old(out)@[i],
        forall|i: int|
            old(out)@.len() <= i < final(out)@.len() ==> (#[trigger] final(out)@[i])@
                == article_lines(*a, num as nat)[i - old(out)@.len()],
{
    let blank: Vec<char> = Vec::new();
    out.push(string_from_chars(&blank));
    let mut head: Vec<char> = Vec::new();
    head.push('[');
    push_dec(num, &mut head);
    head.push(']');
    head.push(' ');
    let mut title = chars_vec(a.title.as_str());
    head.append(&mut title);
    proof {
        assert(head@ =~= seq!['['] + dec_digits(num as nat) + seq![']', ' '] + a.title@);
    }
    out.push(string_from_chars(&head));
    match &a.description {
        Some(d) => {
            let mut line: Vec<char> = Vec::new();
            line.push(' ');
            line.push(' ');
            line.push(' ');
            line.push(' ');
            let mut dc = chars_vec(d.as_str());
            line.append(&mut dc);
            proof {
                assert(line@ =~= seq![' ', ' ', ' ', ' '] + d@);
            }
            out.push(string_from_chars(&line));
        },
        None => {},
    }
    let mut link: Vec<char> = Vec::new();
    link.push(' ');
    link.push(' ');
    link.push(' ');
    link.push(' ');
    link.push('R');
    link.push('e');
    link.push('a');
    link.push('d');
    link.push(' ');
    link.push('m');
    link.push('o');
    link.push('r');
    link.push('e');
    link.push(':');
    link.push(' ');
    let mut uc = chars_vec(a.url.as_str());
    link.append(&mut uc);
    proof {
        assert(link@ =~= seq![
            ' ', ' ', ' ', ' ', 'R', 'e', 'a', 'd', ' ', 'm', 'o', 'r', 'e', ':', ' ',
        ] + a.url@);
    }
    out.push(string_from_chars(&link));
}

fn push_news_lines(articles: &Vec<NewsArticle>, k: usize, limit: usize, out: &mut Vec<String>)
    requires
        k <= articles@.len(),
    ensures
        final(out)@.len() == old(out)@.len() + news_lines_from(articles@, k as int, limit as int)
            .len(),
        forall|i: int| 0 <= i < old(out)@.len() ==> final(out)@[i] == old(out)@[i],
        forall|i: int|
            old(out)@.len() <= i < final(out)@.len() ==> (#[trigger] final(out)@[i])@
                == news_lines_from(articles@, k as int, limit as int)[i - old(out)@.len()],
    decreases articles@.len() - k,
{
    if k < limit && k < articles.len() {
        push_article_lines(&articles[k], k + 1, out);
        push_news_lines(articles, k + 1, limit, out);
    }
}

/// The full display rendering of at most `limit` articles, in order, each
/// numbered from one: the lines that the reader prints.
pub fn display_lines(articles: &Vec<NewsArticle>, limit: usize) -> (r: Vec<String>)
    ensures
        r@.len() == news_lines_from(articles@, 0, limit as int).len(),
        forall|i: int|
            0 <= i < r@.len() ==> (#[trigger] r@[i])@ == news_lines_from(
                articles@,
                0,
                limit as int,
            )[i],
{
    let mut out: Vec<String> = Vec::new();
    push_news_lines(articles, 0, limit, &mut out);
    out
}

} // verus!
