use vstd::prelude::*;

verus! {

/// The single-quote byte `'`.
pub const QUOTE_SINGLE: u8 = 39;

/// The double-quote byte `"`.
pub const QUOTE_DOUBLE: u8 = 34;

/// The literal byte string `" --> "` that separates the two halves of a
/// time-range line.
pub open spec fn arrow_lit() -> Seq<u8> {
    seq![32u8, 45u8, 45u8, 62u8, 32u8]
}

/// A separator pattern that splitting iterators search for.
#[derive(Debug, Clone, PartialEq, Eq)]
pub enum Sep {
    /// A single byte, such as `:` or `,`.
    Byte(u8),
    /// A fixed byte string; must not be empty.
    Bytes(Vec<u8>),
    /// The five-byte time-range separator `" --> "`.
    Arrow,
    /// A line terminator: `\r\n` where it occurs, otherwise a bare `\n`.
    Line,
}

impl Sep {
    pub open spec fn wf(self) -> bool {
        match self {
            Sep::Bytes(v) => v@.len() > 0,
            _ => true,
        }
    }

    /// The length of the match that `self` produces at position `i` of `s`,
    /// or `None` if `self` does not match there.
    pub open spec fn match_len_at(self, s: Seq<u8>, i: int) -> Option<int> {
        match self {
            Sep::Byte(b) => if 0 <= i && i < s.len() && s[i] == b {
                Some(1int)
            } else {
                None
            },
            Sep::Bytes(v) => if 0 <= i && i + v@.len() <= s.len() && s.subrange(i, i + v@.len())
                == v@ {
                Some(v@.len() as int)
            } else {
                None
            },
            Sep::Arrow => if 0 <= i && i + 5 <= s.len() && s.subrange(i, i + 5) == arrow_lit() {
                Some(5int)
            } else {
                None
            },
            Sep::Line => if 0 <= i && i + 1 < s.len() && s[i] == 13 && s[i + 1] == 10 {
                Some(2int)
            } else if 0 <= i && i < s.len() && s[i] == 10 {
                Some(1int)
            } else {
                None
            },
        }
    }

    /// Reads the match length at position `i` of `text`.
    pub fn read_match_at(&self, text: &[u8], i: usize) -> (r: Option<usize>)
        requires
            i <= text@.len(),
        ensures
            match r {
                Some(l) => self.match_len_at(text@, i as int) == Some(l as int) && i + l
                    <= text@.len(),
                None => self.match_len_at(text@, i as int) is None,
            },
    {
        match self {
            Sep::Byte(b) => {
                if i < text.len() && text[i] == *b {
                    Some(1)
                } else {
                    None
                }
            },
            Sep::Bytes(v) => {
                let n = text.len();
                if v.len() <= n - i {
                    let mut k: usize = 0;
                    while k < v.len()
                        invariant
                            0 <= k <= v@.len(),
                            i + v@.len() <= n,
                            n == text@.len(),
                            forall|j: int| 0 <= j < k ==> text@[i + j] == v@[j],
                        decreases v@.len() - k,
                    {
                        if text[i + k] != v[k] {
                            proof {
                                assert(text@.subrange(i as int, i + v@.len())[k as int] == text@[i
                                    + k]);
                            }
                            return None;
                        }
                        k += 1;
                    }
                    proof {
                        assert(text@.subrange(i as int, i + v@.len()) =~= v@);
                    }
                    Some(v.len())
                } else {
                    None
                }
            },
            Sep::Arrow => {
                let n = text.len();
                if n - i >= 5 {
                    if text[i] == 32 && text[i + 1] == 45 && text[i + 2] == 45 && text[i + 3] == 62
                        && text[i + 4] == 32 {
                        proof {
                            assert(text@.subrange(i as int, i + 5) =~= arrow_lit());
                        }
                        Some(5)
                    } else {
                        proof {
                            let sub = text@.subrange(i as int, i + 5);
                            assert(sub[0] == text@[i as int] && sub[1] == text@[i + 1] && sub[2]
                                == text@[i + 2] && sub[3] == text@[i + 3] && sub[4] == text@[i
                                + 4]);
                        }
                        None
                    }
                } else {
                    None
                }
            },
            Sep::Line => {
                if i < text.len() && text[i] == 13 && i + 1 < text.len() && text[i + 1] == 10 {
                    Some(2)
                } else if i < text.len() && text[i] == 10 {
                    Some(1)
                } else {
                    None
                }
            },
        }
    }
}

/// How many times byte `b` occurs in `s` before position `end`.
pub open spec fn count_byte(s: Seq<u8>, b: u8, end: int) -> int
    decreases end,
{
    if end <= 0 {
        0
    } else {
        count_byte(s, b, end - 1) + if s[end - 1] == b {
            1int
        } else {
            0int
        }
    }
}

/// Position `i` of `s` lies outside any quoted region, when quoting is read
/// as an independent open/close toggle per quote character, scanned from the
/// start of `s`: the number of occurrences of each quote character before
/// `i` is even.
pub open spec fn outside_quotes(s: Seq<u8>, i: int) -> bool {
    &&& count_byte(s, QUOTE_SINGLE, i) % 2 == 0
    &&& count_byte(s, QUOTE_DOUBLE, i) % 2 == 0
}

/// `count_byte` grows monotonically with the end position.
pub proof fn lemma_count_byte_monotone(s: Seq<u8>, b: u8, i: int, j: int)
    requires
        i <= j,
    ensures
        count_byte(s, b, i) <= count_byte(s, b, j),
    decreases j - i,
{
    if i < j {
        lemma_count_byte_monotone(s, b, i, j - 1);
    }
}

/// A set of toggles, one per watched byte, that flip each time their byte is
/// visited; used to keep track of open quote characters while scanning.
#[derive(Debug, Clone, PartialEq, Eq)]
pub struct Reviewer {
    items: Vec<(u8, bool)>,
}

impl Reviewer {
    /// The watched bytes, in order.
    pub closed spec fn watched(self) -> Seq<u8> {
        self.items@.map(|_i: int, p: (u8, bool)| p.0)
    }

    /// The toggle state of entry `i`.
    pub closed spec fn state(self, i: int) -> bool {
        self.items@[i].1
    }

    pub closed spec fn len(self) -> nat {
        self.items@.len()
    }

    pub fn new(ignore: Vec<u8>) -> (r: Reviewer)
        ensures
            r.watched() == ignore@,
            r.len() == ignore@.len(),
            forall|i: int| 0 <= i < r.len() ==> !r.state(i),
    {
        let mut items: Vec<(u8, bool)> = Vec::new();
        let mut k: usize = 0;
        while k < ignore.len()
            invariant
                0 <= k <= ignore@.len(),
                items@.len() == k,
                forall|i: int| 0 <= i < k ==> items@[i] == (ignore@[i], false),
            decreases ignore@.len() - k,
        {
            items.push((ignore[k], false));
            k += 1;
        }
        let r = Reviewer { items };
        proof {
            assert(r.watched() =~= ignore@);
        }
        r
    }

    /// Clears every toggle.
    pub fn reset(&mut self)
        ensures
            final(self).watched() == old(self).watched(),
            final(self).len() == old(self).len(),
            forall|i: int| 0 <= i < final(self).len() ==> !final(self).state(i),
    {
        let n = self.items.len();
        let mut items: Vec<(u8, bool)> = Vec::new();
        let mut k: usize = 0;
        while k < n
            invariant
                0 <= k <= n,
                *self == *old(self),
                self.items@.len() == n,
                items@.len() == k,
                forall|i: int| 0 <= i < k ==> items@[i] == (old(self).items@[i].0, false),
            decreases n - k,
        {
            items.push((self.items[k].0, false));
            k += 1;
        }
        self.items = items;
        proof {
            assert(self.watched() =~= old(self).watched());
        }
    }

    /// Visits one byte: the first entry watching it flips, and its new state
    /// is returned; a byte that no entry watches returns `false`.
    pub fn visit(&mut self, find: u8) -> (r: bool)
        ensures
            final(self).watched() == old(self).watched(),
            final(self).len() == old(self).len(),
            forall|i: int|
                #![trigger final(self).state(i)]
                0 <= i < old(self).len() ==> final(self).state(i) == if old(self).watched()[i]
                    == find && (forall|j: int| 0 <= j < i ==> old(self).watched()[j] != find) {
                    !old(self).state(i)
                } else {
                    old(self).state(i)
                },
            r == exists|i: int|
                0 <= i < final(self).len() && old(self).watched()[i] == find && (forall|j: int|
                    0 <= j < i ==> old(self).watched()[j] != find) && final(self).state(i),
    {
        let ghost w = self.watched();
        let n = self.items.len();
        let mut k: usize = 0;
        while k < n
            invariant
                0 <= k <= n,
                self.items@.len() == n,
                self.watched() == w,
                *self == *old(self),
                forall|j: int| 0 <= j < k ==> w[j] != find,
            decreases n - k,
        {
            if self.items[k].0 == find {
                let state = !self.items[k].1;
                self.items.set(k, (find, state));
                proof {
                    assert(self.watched() =~= w);
                    assert forall|i: int|
                        #![trigger self.state(i)]
                        0 <= i < w.len() implies self.state(i) == if w[i] == find && (forall|
                        j: int,
                    |
                        0 <= j < i ==> w[j] != find) {
                        !old(self).state(i)
                    } else {
                        old(self).state(i)
                    } by {
                        if i < k {
                            assert(w[i] != find);
                        } else if i > k {
                            assert(w[k as int] == find);
                            assert(!(forall|j: int| 0 <= j < i ==> w[j] != find));
                        }
                    }
                    if state {
                        assert(w[k as int] == find && self.state(k as int));
                    } else {
                        assert forall|i: int|
                            !(0 <= i < self.len() && w[i] == find && (forall|j: int|
                                0 <= j < i ==> w[j] != find) && self.state(i)) by {
                            if 0 <= i < self.len() && w[i] == find {
                                if i < k {
                                    assert(w[i] != find);
                                } else if i > k {
                                    assert(w[k as int] == find);
                                } else {
                                    assert(!self.state(i));
                                }
                            }
                        }
                    }
                }
                return state;
            }
            k += 1;
        }
        false
    }

    /// Whether any toggle is open: a quote character was seen an odd number
    /// of times.
    pub fn partial(&self) -> (r: bool)
        ensures
            r == exists|i: int| 0 <= i < self.len() && self.state(i),
    {
        let n = self.items.len();
        let mut k: usize = 0;
        while k < n
            invariant
                0 <= k <= n,
                self.items@.len() == n,
                forall|i: int| 0 <= i < k ==> !self.state(i),
            decreases n - k,
        {
            if self.items[k].1 {
                proof {
                    assert(self.state(k as int));
                }
                return true;
            }
            k += 1;
        }
        false
    }
}

} // verus!
