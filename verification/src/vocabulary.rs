use vstd::prelude::*;
use vstd::string::*;
use crate::text::{lines_of, split_lines};

verus! {

/// The words joined into one text, a line feed between each two.
pub open spec fn joined_lines(words: Seq<Seq<char>>) -> Seq<char>
    decreases words.len(),
{
    if words.len() == 0 {
        Seq::empty()
    } else if words.len() == 1 {
        words[0]
    } else {
        joined_lines(words.drop_last()) + seq!['\n'] + words.last()
    }
}

/// The bias words that the content of a hotwords file holds: its lines.
pub fn parse_vocabulary(content: &str) -> (words: Vec<String>)
    ensures
        words.deep_view() == split_lines(content@),
{
    lines_of(content)
}

/// The content of a hotwords file that holds the given bias words: one word
/// to a line.
pub fn render_vocabulary(words: &Vec<String>) -> (content: String)
    ensures
        content@ == joined_lines(words.deep_view()),
{
    let mut content = String::new();
    let mut i: usize = 0;
    while i < words.len()
        invariant
            i <= words.len(),
            content@ == joined_lines(words.deep_view().take(i as int)),
        decreases words.len() - i,
    {
        proof {
            let next = words.deep_view().take(i + 1);
            assert(next.drop_last() =~= words.deep_view().take(i as int));
            assert(next.last() == words@[i as int]@);
        }
        if i > 0 {
            content.append("\n");
            proof {
                reveal_strlit("\n");
                assert("\n"@ =~= seq!['\n']);
            }
        }
        content.append(words[i].as_str());
        i += 1;
    }
    assert(words.deep_view().take(words.len() as int) =~= words.deep_view());
    content
}

} // verus!
