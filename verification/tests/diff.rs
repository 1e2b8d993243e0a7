//! Least-common-subsequence tables and diffs, used to compare sequences in
//! tests with readable failure output.

use std::fmt::Debug;

pub struct LcsTable<'a, T: 'a> {
    pub lengths: Vec<Vec<i64>>,
    a: &'a [T],
    b: &'a [T],
}

#[derive(Debug, PartialEq)]
pub enum DiffComponent<T> {
    Insertion(T),
    Unchanged(T, T),
    Deletion(T),
}

impl<'a, T> LcsTable<'a, T>
where
    T: PartialEq,
{
    pub fn new(a: &'a [T], b: &'a [T]) -> LcsTable<'a, T> {
        let mut lengths = vec![vec![0; b.len() + 1]; a.len() + 1];
        for i in 0..a.len() {
            for j in 0..b.len() {
                lengths[i + 1][j + 1] = if a[i] == b[j] {
                    1 + lengths[i][j]
                } else {
                    std::cmp::max(lengths[i + 1][j], lengths[i][j + 1])
                }
            }
        }
        LcsTable { lengths, a, b }
    }

    pub fn diff(&self) -> Vec<DiffComponent<&T>> {
        self.compute_diff(self.a.len(), self.b.len())
    }

    fn compute_diff(&self, i: usize, j: usize) -> Vec<DiffComponent<&T>> {
        if i == 0 && j == 0 {
            return vec![];
        }
        let (to_add, mut rest_diff) = if i == 0 {
            (
                DiffComponent::Insertion(&self.b[j - 1]),
                self.compute_diff(i, j - 1),
            )
        } else if j == 0 {
            (
                DiffComponent::Deletion(&self.a[i - 1]),
                self.compute_diff(i - 1, j),
            )
        } else if self.a[i - 1] == self.b[j - 1] {
            (
                DiffComponent::Unchanged(&self.a[i - 1], &self.b[j - 1]),
                self.compute_diff(i - 1, j - 1),
            )
        } else if self.lengths[i][j - 1] > self.lengths[i - 1][j] {
            (
                DiffComponent::Insertion(&self.b[j - 1]),
                self.compute_diff(i, j - 1),
            )
        } else {
            (
                DiffComponent::Deletion(&self.a[i - 1]),
                self.compute_diff(i - 1, j),
            )
        };
        rest_diff.push(to_add);
        rest_diff
    }
}

pub fn assert_eq_seq<T: PartialEq + Debug>(x: Vec<T>, y: Vec<T>) {
    if x != y {
        let mut buf = String::with_capacity(1024);
        for item in LcsTable::new(&x, &y).diff() {
            match item {
                DiffComponent::Deletion(val) => {
                    buf.push_str(&format!("  - {:?}\n", val));
                }
                DiffComponent::Unchanged(val, _) => {
                    buf.push_str(&format!("    {:?}\n", val));
                }
                DiffComponent::Insertion(val) => {
                    buf.push_str(&format!("  + {:?}\n", val));
                }
            }
        }
        panic!("Sequences differ:\n{}", buf);
    }
}

// The library is what the diffed sequences come from in the other test
// files; this one checks the table itself.
#[allow(unused_imports)]
use trimmer::Parser;

#[test]
fn test_lcs_table() {
    let a: Vec<_> = "gac".chars().collect();
    let b: Vec<_> = "agcat".chars().collect();

    let actual_lengths = LcsTable::new(&a, &b).lengths;
    let expected_lengths = vec![
        vec![0, 0, 0, 0, 0, 0],
        vec![0, 0, 1, 1, 1, 1],
        vec![0, 1, 1, 1, 2, 2],
        vec![0, 1, 1, 2, 2, 2],
    ];

    assert_eq!(expected_lengths, actual_lengths);
}

#[test]
fn test_diff() {
    let a: Vec<_> = "axb".chars().collect();
    let b: Vec<_> = "abc".chars().collect();

    let table = LcsTable::new(&a, &b);
    let diff = table.diff();
    assert_eq!(
        diff,
        vec![
            DiffComponent::Unchanged(&'a', &'a'),
            DiffComponent::Deletion(&'x'),
            DiffComponent::Unchanged(&'b', &'b'),
            DiffComponent::Insertion(&'c')
        ]
    );
}
