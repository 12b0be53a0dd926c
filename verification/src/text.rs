//! Text the pipeline stages produce and search: decimal rendering of
//! counters, generated file names, line labels, substring search, and
//! joining processed lines back together.

use vstd::prelude::*;

verus! {

/// The digit character for the value `d`.
pub open spec fn digit_char(d: int) -> char {
    ((48 + d) as u8) as char
}

/// The decimal rendering of `n`, most significant digit first, with no
/// leading zeros.
pub open spec fn dec_rep(n: nat) -> Seq<char>
    decreases n,
{
    if n < 10 {
        seq![digit_char(n as int)]
    } else {
        dec_rep(n / 10).push(digit_char((n % 10) as int))
    }
}

/// The one-character string for the digit `d`.
fn digit_str(d: u64) -> (s: &'static str)
    requires
        d < 10,
    ensures
        s@ == seq![digit_char(d as int)],
{
    if d == 0 {
        proof {
            reveal_strlit("0");
        }
        "0"
    } else if d == 1 {
        proof {
            reveal_strlit("1");
        }
        "1"
    } else if d == 2 {
        proof {
            reveal_strlit("2");
        }
        "2"
    } else if d == 3 {
        proof {
            reveal_strlit("3");
        }
        "3"
    } else if d == 4 {
        proof {
            reveal_strlit("4");
        }
        "4"
    } else if d == 5 {
        proof {
            reveal_strlit("5");
        }
        "5"
    } else if d == 6 {
        proof {
            reveal_strlit("6");
        }
        "6"
    } else if d == 7 {
        proof {
            reveal_strlit("7");
        }
        "7"
    } else if d == 8 {
        proof {
            reveal_strlit("8");
        }
        "8"
    } else {
        proof {
            reveal_strlit("9");
        }
        "9"
    }
}

/// Render `n` in decimal.
pub fn to_decimal(n: u64) -> (s: String)
    ensures
        s@ == dec_rep(n as nat),
    decreases n,
{
    if n < 10 {
        String::from_str(digit_str(n))
    } else {
        proof {
            assert(n / 10 < n) by (nonlinear_arith)
                requires
                    n >= 10,
            ;
        }
        let mut s = to_decimal(n / 10);
        s.append(digit_str(n % 10));
        proof {
            assert(s@ =~= dec_rep((n / 10) as nat).push(digit_char((n % 10) as int)));
        }
        s
    }
}

/// The name of the numbered work file `n`.
pub open spec fn filename_spec(n: nat) -> Seq<char> {
    "file_"@ + dec_rep(n) + ".txt"@
}

/// The hundred file names the file-processing stages walk, `file_0.txt`
/// through `file_99.txt`, in ascending or descending order.
pub fn get_filenames(reverse: bool) -> (names: Vec<String>)
    ensures
        names@.len() == 100,
        forall|i: int|
            0 <= i < 100 ==> (#[trigger] names@[i])@ == filename_spec(
                if reverse {
                    (99 - i) as nat
                } else {
                    i as nat
                },
            ),
{
    let mut names: Vec<String> = Vec::new();
    let mut i: u64 = 0;
    while i < 100
        invariant
            i <= 100,
            names@.len() == i,
            forall|j: int|
                0 <= j < i ==> (#[trigger] names@[j])@ == filename_spec(
                    if reverse {
                        (99 - j) as nat
                    } else {
                        j as nat
                    },
                ),
        decreases 100 - i,
    {
        let n = if reverse {
            99 - i
        } else {
            i
        };
        let mut name = String::from_str("file_");
        name.append(to_decimal(n).as_str());
        name.append(".txt");
        proof {
            assert(name@ =~= filename_spec(n as nat));
        }
        names.push(name);
        i = i + 1;
    }
    names
}

/// `needle` occurs contiguously somewhere in `haystack`.
pub open spec fn contains_spec(haystack: Seq<char>, needle: Seq<char>) -> bool {
    exists|k: int|
        0 <= k && k + needle.len() <= haystack.len() && #[trigger] haystack.subrange(
            k,
            k + needle.len(),
        ) == needle
}

/// Whether `needle` occurs contiguously in `haystack`.
pub fn str_contains(haystack: &str, needle: &str) -> (r: bool)
    ensures
        r == contains_spec(haystack@, needle@),
{
    let hl = haystack.unicode_len();
    let nl = needle.unicode_len();
    if nl > hl {
        proof {
            if contains_spec(haystack@, needle@) {
                let k = choose|k: int|
                    0 <= k && k + needle@.len() <= haystack@.len() && #[trigger] haystack@.subrange(
                        k,
                        k + needle@.len(),
                    ) == needle@;
                assert(k + nl <= hl);
            }
        }
        return false;
    }
    if nl == 0 {
        proof {
            assert(haystack@.subrange(0, 0 + needle@.len() as int) =~= needle@);
            assert(contains_spec(haystack@, needle@));
        }
        return true;
    }
    let mut k: usize = 0;
    while k <= hl - nl
        invariant
            1 <= nl <= hl,
            hl == haystack@.len(),
            nl == needle@.len(),
            k <= hl - nl + 1,
            forall|kk: int|
                0 <= kk < k ==> #[trigger] haystack@.subrange(kk, kk + needle@.len()) != needle@,
        decreases hl - nl - k + 1,
    {
        let mut j: usize = 0;
        let mut still_eq = true;
        while j < nl && still_eq
            invariant
                k + nl <= hl,
                hl == haystack@.len(),
                nl == needle@.len(),
                j <= nl,
                still_eq ==> forall|jj: int| 0 <= jj < j ==> haystack@[k + jj] == needle@[jj],
                !still_eq ==> haystack@.subrange(k as int, k + needle@.len()) != needle@,
            decreases nl - j + if still_eq {
                1int
            } else {
                0int
            },
        {
            if haystack.get_char(k + j) != needle.get_char(j) {
                proof {
                    assert(haystack@.subrange(k as int, k + needle@.len())[j as int]
                        == haystack@[k + j]);
                }
                still_eq = false;
            } else {
                j = j + 1;
            }
        }
        if still_eq {
            proof {
                assert(haystack@.subrange(k as int, k + needle@.len()) =~= needle@);
            }
            return true;
        }
        k = k + 1;
    }
    proof {
        if contains_spec(haystack@, needle@) {
            let kk = choose|kk: int|
                0 <= kk && kk + needle@.len() <= haystack@.len() && #[trigger] haystack@.subrange(
                    kk,
                    kk + needle@.len(),
                ) == needle@;
            assert(kk < k);
        }
    }
    false
}

/// The lines that mention `target`, in input order: the filter the
/// line-search loop applies.
pub fn grep_lines(target: &str, lines: &Vec<String>) -> (found: Vec<String>)
    ensures
        found.deep_view() == lines.deep_view().filter(
            |l: Seq<char>| contains_spec(l, target@),
        ),
{
    let ghost pred = |l: Seq<char>| contains_spec(l, target@);
    let mut found: Vec<String> = Vec::new();
    proof {
        reveal_with_fuel(Seq::<_>::filter, 1);
        assert(lines.deep_view().take(0) =~= Seq::<Seq<char>>::empty());
        assert(found.deep_view() =~= lines.deep_view().take(0).filter(pred));
    }
    let mut i: usize = 0;
    while i < lines.len()
        invariant
            i <= lines@.len(),
            lines.deep_view().len() == lines@.len(),
            forall|j: int| 0 <= j < lines@.len() ==> lines.deep_view()[j] == (
            #[trigger] lines@[j])@,
            pred == (|l: Seq<char>| contains_spec(l, target@)),
            found.deep_view() == lines.deep_view().take(i as int).filter(pred),
        decreases lines@.len() - i,
    {
        let line = &lines[i];
        let ghost prefix = lines.deep_view().take(i as int);
        let ghost prefix1 = lines.deep_view().take(i + 1);
        proof {
            reveal_with_fuel(Seq::<_>::filter, 1);
            assert(prefix1.drop_last() =~= prefix);
            assert(prefix1.last() == line@);
        }
        if str_contains(line.as_str(), target) {
            found.push(line.clone());
            proof {
                assert(found.deep_view() =~= prefix.filter(pred).push(line@));
            }
        }
        i = i + 1;
    }
    proof {
        assert(lines.deep_view().take(lines@.len() as int) =~= lines.deep_view());
    }
    found
}

/// The processed lines laid end to end with a newline between each pair.
pub open spec fn joined(texts: Seq<Seq<char>>) -> Seq<char>
    decreases texts.len(),
{
    if texts.len() == 0 {
        Seq::empty()
    } else if texts.len() == 1 {
        texts[0]
    } else {
        joined(texts.drop_last()) + seq!['\n'] + texts.last()
    }
}

/// Join the texts with a newline between each pair, in order.
pub fn merge_processed_texts(texts: &Vec<String>) -> (merged: String)
    ensures
        merged@ == joined(texts.deep_view()),
{
    let mut merged = String::new();
    let mut i: usize = 0;
    while i < texts.len()
        invariant
            i <= texts@.len(),
            texts.deep_view().len() == texts@.len(),
            forall|j: int| 0 <= j < texts@.len() ==> texts.deep_view()[j] == (
            #[trigger] texts@[j])@,
            merged@ == joined(texts.deep_view().take(i as int)),
        decreases texts@.len() - i,
    {
        if i > 0 {
            merged.append("\n");
            proof {
                reveal_strlit("\n");
                assert("\n"@ =~= seq!['\n']);
            }
        }
        merged.append(texts[i].as_str());
        proof {
            let prefix1 = texts.deep_view().take(i + 1);
            assert(prefix1.drop_last() =~= texts.deep_view().take(i as int));
            assert(prefix1.last() == texts@[i as int]@);
            if i == 0 {
                assert(merged@ =~= joined(prefix1));
            } else {
                assert(merged@ =~= joined(prefix1));
            }
        }
        i = i + 1;
    }
    proof {
        assert(texts.deep_view().take(texts@.len() as int) =~= texts.deep_view());
    }
    merged
}

/// The line the file-reading stage hands on for one file.
pub fn thread_file_line(filename: &str, thread_id: u64) -> (line: String)
    ensures
        line@ == "Thread:  "@ + dec_rep(thread_id as nat) + ", File: "@ + filename@,
{
    let mut line = String::from_str("Thread:  ");
    line.append(to_decimal(thread_id).as_str());
    line.append(", File: ");
    line.append(filename);
    line
}

/// The label the processing stage puts before a text.
pub fn proc_label(index: u64, text: &str) -> (line: String)
    ensures
        line@ == "proc: "@ + dec_rep(index as nat) + " -> "@ + text@,
{
    let mut line = String::from_str("proc: ");
    line.append(to_decimal(index).as_str());
    line.append(" -> ");
    line.append(text)
;
    line
}

} // verus!
