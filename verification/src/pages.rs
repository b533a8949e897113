//! Long lists cut into pages.
use vstd::prelude::*;

use crate::listing::{data_models, PackageData};
use crate::number::{shown_count, to_count};
use crate::store::at_most;

verus! {

/// The number of installed packages on a page.
pub const PAGE_SIZE: usize = 50;

/// The number of rows of a remote or a repository that are shown at first.
pub const LONG_PAGE: usize = 150;

/// The number of pages of `size` rows that hold `n` rows; a list without rows has one page.
pub open spec fn page_count(n: int, size: int) -> int {
    if n == 0 {
        1
    } else {
        (n + size - 1) / size
    }
}

/// At most `most` rows of a list after its first `start`.
pub open spec fn rows_from<A>(list: Seq<A>, start: int, most: int) -> Seq<A> {
    if start >= list.len() {
        seq![]
    } else {
        at_most(list.skip(start), most)
    }
}

/// Rows of a list, and the number of pages of the whole list.
#[derive(Debug, Clone)]
pub struct Page {
    pub rows: Vec<PackageData>,
    pub total_pages: i32,
}

/// The number of pages of installed packages.
pub fn total_pages(len: usize) -> (n: i32)
    ensures
        n == shown_count(page_count(len as int, PAGE_SIZE as int) as nat),
{
    let full: usize = len / PAGE_SIZE;
    proof {
        let n = len as int;
        assert(n == 50 * (n / 50) + n % 50);
        if n % 50 == 0 {
            assert(n == 0 || (n + 49) / 50 == n / 50);
        } else {
            assert((n + 49) / 50 == n / 50 + 1);
        }
    }
    if len == 0 {
        to_count(1)
    } else if len % PAGE_SIZE == 0 {
        to_count(full as u128)
    } else {
        to_count(full as u128 + 1)
    }
}

/// Copies at most `most` rows of a list after its first `start`.
pub fn copy_rows(list: &[PackageData], start: usize, most: usize) -> (out: Vec<PackageData>)
    ensures
        data_models(out@) == rows_from(data_models(list@), start as int, most as int),
{
    let mut out: Vec<PackageData> = Vec::new();
    let n: usize = list.len();
    if start >= n {
        proof {
            assert(data_models(out@) =~= seq![]);
        }
        return out;
    }
    let end: usize = if n - start > most {
        start + most
    } else {
        n
    };
    for i in start..end
        invariant
            start <= end <= list@.len(),
            out@.len() == i - start,
            forall|j: int| 0 <= j < i - start ==> (#[trigger] out@[j])@ == list@[start + j]@,
    {
        out.push(list[i].copied());
    }
    proof {
        assert(data_models(out@) =~= rows_from(data_models(list@), start as int, most as int));
    }
    out
}

/// The first page of the installed packages.
pub fn first_page(list: &[PackageData]) -> (p: Page)
    ensures
        data_models(p.rows@) == rows_from(data_models(list@), 0, PAGE_SIZE as int),
        p.total_pages == shown_count(page_count(list@.len() as int, PAGE_SIZE as int) as nat),
{
    Page { rows: copy_rows(list, 0, PAGE_SIZE), total_pages: total_pages(list.len()) }
}

/// A page of the installed packages. Only the view of those packages has pages.
pub fn load_page(view: i32, list: &[PackageData], page: i32) -> (r: Option<Page>)
    requires
        0 <= page,
        page * PAGE_SIZE <= usize::MAX,
    ensures
        match r {
            Some(p) => {
                &&& view == 0
                &&& data_models(p.rows@) == rows_from(
                    data_models(list@),
                    page * PAGE_SIZE,
                    PAGE_SIZE as int,
                )
                &&& p.total_pages == shown_count(
                    page_count(list@.len() as int, PAGE_SIZE as int) as nat,
                )
            },
            None => view != 0,
        },
{
    if view != 0 {
        return None;
    }
    let start: usize = page as usize * PAGE_SIZE;
    Some(Page { rows: copy_rows(list, start, PAGE_SIZE), total_pages: total_pages(list.len()) })
}

/// The rows that stand on the first `k` pages.
proof fn rows_before<A>(list: Seq<A>, size: int, k: int)
    requires
        size > 0,
        0 <= k,
    ensures
        k * size >= 0,
        list.take(
            if k * size <= list.len() {
                k * size
            } else {
                list.len() as int
            },
        ) + rows_from(list, k * size, size) == list.take(
            if (k + 1) * size <= list.len() {
                (k + 1) * size
            } else {
                list.len() as int
            },
        ),
{
    assert(k * size >= 0 && (k + 1) * size == k * size + size) by (nonlinear_arith)
        requires
            size > 0,
            0 <= k,
    ;
    let a = if k * size <= list.len() {
        k * size
    } else {
        list.len() as int
    };
    let b = if (k + 1) * size <= list.len() {
        (k + 1) * size
    } else {
        list.len() as int
    };
    assert(list.take(a) + rows_from(list, k * size, size) =~= list.take(b));
}

/// The first `k` pages of a list, one after the other.
pub open spec fn pages_joined<A>(list: Seq<A>, size: int, k: nat) -> Seq<A>
    decreases k,
{
    if k == 0 {
        seq![]
    } else {
        pages_joined(list, size, (k - 1) as nat) + rows_from(list, (k - 1) * size, size)
    }
}

proof fn pages_are_a_prefix<A>(list: Seq<A>, size: int, k: nat)
    requires
        size > 0,
    ensures
        pages_joined(list, size, k) == list.take(
            if k * size <= list.len() {
                k * size
            } else {
                list.len() as int
            },
        ),
    decreases k,
{
    if k == 0 {
        assert(list.take(0) =~= seq![]);
    } else {
        pages_are_a_prefix(list, size, (k - 1) as nat);
        rows_before(list, size, k - 1);
    }
}

/// The pages of a list, as many as are counted, hold the whole list in its order.
pub proof fn pages_hold_the_list<A>(list: Seq<A>, size: int)
    requires
        size > 0,
    ensures
        page_count(list.len() as int, size) >= 1,
        pages_joined(list, size, page_count(list.len() as int, size) as nat) == list,
{
    let n = list.len() as int;
    let k = page_count(n, size);
    assert(k >= 1 && k * size >= n) by (nonlinear_arith)
        requires
            size > 0,
            n >= 0,
            k == if n == 0 {
                1
            } else {
                (n + size - 1) / size
            },
    ;
    pages_are_a_prefix(list, size, k as nat);
    assert(list.take(n) =~= list);
}

/// A page holds the rows from its place in the list on, as many as fit and as there are.
pub proof fn rows_stand_on_their_page<A>(list: Seq<A>, start: int, most: int)
    requires
        0 <= start,
        0 <= most,
    ensures
        forall|i: int|
            0 <= i < rows_from(list, start, most).len() ==> #[trigger] rows_from(
                list,
                start,
                most,
            )[i] == list[start + i],
        start + most <= list.len() ==> rows_from(list, start, most).len() == most,
        start <= list.len() < start + most ==> rows_from(list, start, most).len() == list.len()
            - start,
        start > list.len() ==> rows_from(list, start, most).len() == 0,
{
}

/// There are no more pages than are needed, and one even for no rows.
pub proof fn pages_are_needed(n: int, size: int)
    requires
        n >= 0,
        size > 0,
    ensures
        page_count(n, size) * size >= n,
        n > 0 ==> (page_count(n, size) - 1) * size < n,
        n == 0 ==> page_count(n, size) == 1,
{
    if n > 0 {
        let k = (n + size - 1) / size;
        assert(k * size >= n && (k - 1) * size < n) by (nonlinear_arith)
            requires
                n > 0,
                size > 0,
                k == (n + size - 1) / size,
        ;
    }
}

} // verus!
