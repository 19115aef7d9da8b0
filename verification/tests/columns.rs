use stackblur::columns::line_of_column;
use stackblur::columns::ColumnIter;
use stackblur::columns::Columns;
use stackblur::columns::ColumnsMut;
use stackblur::columns::GridSlice;
use stackblur::columns::Line;
use stackblur::columns::SliceColumn;

fn collect<'a, T: Copy>(mut column: SliceColumn<'a, T>) -> Vec<T> {
    let mut items = Vec::new();
    while let Some(item) = column.next() {
        items.push(*item);
    }
    items
}

fn positions(line: &Line) -> Vec<usize> {
    (0..line.len()).map(|k| line.start + k * line.stride).collect()
}

#[test]
fn line_reads_and_writes_its_cells() {
    let mut buf = vec![0, 1, 2, 3, 4, 5, 6, 7, 8, 9];
    let line = Line { start: 1, stride: 3, count: 3 };
    assert_eq!(line.len(), 3);
    assert_eq!(*line.get(&buf, 0), 1);
    assert_eq!(*line.get(&buf, 1), 4);
    assert_eq!(*line.get(&buf, 2), 7);
    line.set(&mut buf, 1, 40);
    assert_eq!(buf, vec![0, 1, 2, 3, 40, 5, 6, 7, 8, 9]);
    line.set(&mut buf, 2, 70);
    line.set(&mut buf, 0, 10);
    assert_eq!(buf, vec![0, 10, 2, 3, 40, 5, 6, 70, 8, 9]);
}

#[test]
fn line_take_cuts_the_line_short() {
    let line = Line { start: 2, stride: 5, count: 4 };
    assert_eq!(line.take(2), Line { start: 2, stride: 5, count: 2 });
    assert_eq!(line.take(4), line);
    assert_eq!(line.take(9), line);
    assert_eq!(line.take(0), Line { start: 2, stride: 5, count: 0 });
}

#[test]
fn line_of_column_counts_the_cells() {
    // 10 items in rows of 4: columns of 3, 3, 2 and 2 cells
    assert_eq!(line_of_column(10, 4, 0), Line { start: 0, stride: 4, count: 3 });
    assert_eq!(line_of_column(10, 4, 1), Line { start: 1, stride: 4, count: 3 });
    assert_eq!(line_of_column(10, 4, 2), Line { start: 2, stride: 4, count: 2 });
    assert_eq!(line_of_column(10, 4, 3), Line { start: 3, stride: 4, count: 2 });
    assert_eq!(line_of_column(12, 4, 3), Line { start: 3, stride: 4, count: 3 });
    assert_eq!(line_of_column(3, 4, 3), Line { start: 3, stride: 4, count: 0 });
    assert_eq!(line_of_column(0, 4, 0), Line { start: 0, stride: 4, count: 0 });
    assert_eq!(line_of_column(5, 1, 0), Line { start: 0, stride: 1, count: 5 });
}

#[test]
fn slice_column_walks_all_items() {
    let items = [5, 6, 7];
    let mut cursor = SliceColumn::new(&items);
    assert_eq!(cursor.len(), 3);
    assert_eq!(cursor.next(), Some(&5));
    assert_eq!(cursor.len(), 2);
    assert_eq!(cursor.next(), Some(&6));
    assert_eq!(cursor.next(), Some(&7));
    assert_eq!(cursor.len(), 0);
    assert_eq!(cursor.next(), None);
    assert_eq!(cursor.next(), None);
    let nothing: [u8; 0] = [];
    assert_eq!(SliceColumn::new(&nothing).next(), None);
}

#[test]
fn column_takes_every_nth_item() {
    let items: Vec<u32> = (0..10).collect();
    assert_eq!(collect(items.column(0, 4)), vec![0, 4, 8]);
    assert_eq!(collect(items.column(1, 4)), vec![1, 5, 9]);
    assert_eq!(collect(items.column(2, 4)), vec![2, 6]);
    assert_eq!(collect(items.column(3, 4)), vec![3, 7]);
    assert_eq!(collect(items.column(9, 4)), vec![9]);
    assert_eq!(collect(items.column(10, 4)), Vec::<u32>::new());
    assert_eq!(collect(items.column(0, 1)), items);
    assert_eq!(collect(items.column(0, 100)), vec![0]);
    assert_eq!(collect(items.column(3, usize::MAX)), vec![3]);
    assert_eq!(collect(items.column(usize::MAX, 2)), Vec::<u32>::new());
}

#[test]
fn column_of_a_column() {
    let items: Vec<u32> = (0..30).collect();
    // every third item from 1: 1 4 7 10 13 16 19 22 25 28; of these every fourth from 2
    let inner = items.column(1, 3).column(2, 4);
    assert_eq!(collect(inner), vec![7, 19]);
    let inner = SliceColumn::new(&items).column(0, 10).column(1, 1);
    assert_eq!(collect(inner), vec![10, 20]);
    let inner = items.column(0, 7).column(0, usize::MAX);
    assert_eq!(collect(inner), vec![0]);
}

#[test]
fn columns_gives_each_column_once() {
    let items: Vec<u32> = (0..7).collect();
    let mut columns = Columns::new(&items, 3);
    assert_eq!(collect(columns.next().unwrap()), vec![0, 3, 6]);
    assert_eq!(collect(columns.next().unwrap()), vec![1, 4]);
    assert_eq!(collect(columns.next().unwrap()), vec![2, 5]);
    assert!(columns.next().is_none());
    assert!(columns.next().is_none());
    let mut columns = items.columns(3);
    let mut seen = Vec::new();
    while let Some(column) = columns.next() {
        seen.push(collect(column));
    }
    assert_eq!(seen, vec![vec![0, 3, 6], vec![1, 4], vec![2, 5]]);
}

#[test]
fn columns_of_nothing() {
    let nothing: [u32; 0] = [];
    assert!(Columns::new(&nothing, 3).next().is_none());
    assert!(ColumnsMut::new(&nothing, 3).next().is_none());
    let items = [1u32, 2];
    assert!(Columns::new(&items, 0).next().is_none());
    assert!(ColumnsMut::new(&items, 0).next().is_none());
}

#[test]
fn columns_wider_than_the_slice() {
    let items = [1u32, 2];
    let mut columns = Columns::new(&items, 3);
    assert_eq!(collect(columns.next().unwrap()), vec![1]);
    assert_eq!(collect(columns.next().unwrap()), vec![2]);
    assert_eq!(collect(columns.next().unwrap()), Vec::<u32>::new());
    assert!(columns.next().is_none());
}

#[test]
fn columns_mut_gives_the_line_of_each_column() {
    let mut items: Vec<u32> = (0..7).collect();
    let mut columns = items.columns_mut(3);
    assert_eq!(columns.next(), Some(Line { start: 0, stride: 3, count: 3 }));
    assert_eq!(columns.next(), Some(Line { start: 1, stride: 3, count: 2 }));
    assert_eq!(columns.next(), Some(Line { start: 2, stride: 3, count: 2 }));
    assert_eq!(columns.next(), None);
    assert_eq!(columns.next(), None);
    assert_eq!(items.column_mut(1, 3), Line { start: 1, stride: 3, count: 2 });
    assert_eq!(items, (0..7).collect::<Vec<u32>>());
}

#[test]
fn columns_share_no_position_and_leave_none_out() {
    for (len, width) in [(12usize, 4usize), (10, 4), (7, 3), (5, 5), (5, 9), (1, 1), (64, 7)] {
        let items = vec![0u8; len];
        let mut columns = ColumnsMut::new(&items, width);
        let mut hits = vec![0u32; len];
        let mut given = 0;
        while let Some(line) = columns.next() {
            given += 1;
            for p in positions(&line) {
                hits[p] += 1;
            }
        }
        assert_eq!(given, width);
        assert_eq!(hits, vec![1u32; len]);
    }
}

#[test]
fn writing_through_one_column_leaves_the_others() {
    let mut grid: Vec<u32> = (0..12).collect();
    let mut columns = grid.columns_mut(4);
    let first = columns.next().unwrap();
    let second = columns.next().unwrap();
    for k in 0..second.len() {
        second.set(&mut grid, k, 100);
    }
    assert_eq!(grid, vec![0, 100, 2, 3, 4, 100, 6, 7, 8, 100, 10, 11]);
    for k in 0..first.len() {
        let old = *first.get(&grid, k);
        first.set(&mut grid, k, old + 1);
    }
    assert_eq!(grid, vec![1, 100, 2, 3, 5, 100, 6, 7, 9, 100, 10, 11]);
}
