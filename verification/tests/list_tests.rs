use echo_reactor::list::{
    append, collect, cons, exists_any, find, for_all, head_tail, length, partition, skip,
    skip_while, take, take_while,
};

#[test]
fn test_length() {
    {
        let xs: Vec<char> = vec![];
        let length = length(&xs);
        assert_eq!(length, 0);
    }
    {
        let xs: Vec<char> = vec!['r', 'u', 's', 't'];
        let length = length(&xs);
        assert_eq!(length, 4);
    }
}

#[test]
fn test_for_all() {
    {
        let xs: Vec<i32> = vec![];
        let result = for_all(&xs, &|x| x % 2 == 0);
        assert_eq!(result, true);
    }
    {
        let xs: Vec<i32> = vec![8, 10, 0, 2, -4];
        let result = for_all(&xs, &|x| x % 2 == 0);
        assert_eq!(result, true);
    }
    {
        let xs: Vec<i32> = vec![8, -1, 0, 2, -4];
        let result = for_all(&xs, &|x| x % 2 == 0);
        assert_eq!(result, false);
    }
}

#[test]
fn test_exists() {
    {
        let xs: Vec<i32> = vec![];
        let result = exists_any(&xs, &|x| x % 2 != 0);
        assert_eq!(result, false);
    }
    {
        let xs: Vec<i32> = vec![8, -1, 0, 2, -4];
        let result = exists_any(&xs, &|x| x % 2 != 0);
        assert_eq!(result, true);
    }
    {
        let xs: Vec<i32> = vec![8, 10, 0, 2, -4];
        let result = exists_any(&xs, &|x| x % 2 != 0);
        assert_eq!(result, false);
    }
}

#[test]
fn test_find() {
    {
        let xs: Vec<i32> = vec![];
        let ret = find(&xs, &|x| x % 2 == 0);
        assert_eq!(ret, None);
    }
    {
        let xs: Vec<i32> = vec![-1, 3, 7, 0, 5];
        let ret = find(&xs, &|x| x % 2 == 0);
        assert_eq!(ret, Some(0));
    }
    {
        let xs: Vec<i32> = vec![-1, 3, 7, -3, 5];
        let ret = find(&xs, &|x| x % 2 == 0);
        assert_eq!(ret, None);
    }
}

#[test]
fn test_skip() {
    {
        let xs: Vec<i32> = vec![];
        let ret = skip(&xs, 10);
        assert_eq!(ret.len(), 0);
    }
    {
        let xs: Vec<i32> = vec![0, 1, 2, 3, 4];
        assert_eq!(skip(&xs, -1).len(), 5);
        assert_eq!(skip(&xs, 0).len(), 5);
        assert_eq!(skip(&xs, 4).len(), 1);
        assert_eq!(skip(&xs, 5).len(), 0);
        assert_eq!(skip(&xs, 6).len(), 0);
    }
    {
        let xs: Vec<i32> = vec![0, 1, 2, 3, 4];
        let ret = skip(&xs, 1);
        assert_eq!(ret.len(), 4);
        assert_eq!(ret[0], 1);
    }
}

#[test]
fn test_skip_while() {
    {
        let xs: Vec<i32> = vec![];
        let ret = skip_while(&xs, &|x| x % 2 == 0);
        assert_eq!(ret.len(), 0);
    }
    {
        let xs: Vec<i32> = vec![0, 1, 2, 3, 4];
        let ret = skip_while(&xs, &|x| x < 5);
        assert_eq!(ret.len(), 0);
    }
    {
        let xs: Vec<i32> = vec![0, 1, 2, 3, 4];
        let ret = skip_while(&xs, &|x| x >= 5);
        assert_eq!(ret.len(), 5);
    }
    {
        let xs: Vec<i32> = vec![0, 1, 2, 3, 4];
        let ret = skip_while(&xs, &|x| x <= 2);
        assert_eq!(ret.len(), 2);
        assert_eq!(ret[0], 3);
    }
}

#[test]
fn test_take() {
    {
        let xs: Vec<i32> = vec![];
        let ret = take(&xs, 10);
        assert_eq!(ret.len(), 0);
    }
    {
        let xs: Vec<i32> = vec![0, 1, 2];
        assert_eq!(take(&xs, 4).len(), 3);
        assert_eq!(take(&xs, 3).len(), 3);
        assert_eq!(take(&xs, 2).len(), 2);
        assert_eq!(take(&xs, 1).len(), 1);
        assert_eq!(take(&xs, 0).len(), 0);
    }
    {
        let xs: Vec<i32> = vec![0, 1, 2, 3, 4];
        let ret = take(&xs, 2);
        assert_eq!(ret.len(), 2);
        assert_eq!(ret[1], 1);
    }
}

#[test]
fn test_take_while() {
    {
        let xs: Vec<i32> = vec![];
        let ret = take_while(&xs, &|x| x % 2 == 0);
        assert_eq!(ret.len(), 0);
    }
    {
        let xs: Vec<i32> = vec![0, 1, 2, 3, 4];
        let ret = take_while(&xs, &|x| x > 4);
        assert_eq!(ret.len(), 0);
    }
    {
        let xs: Vec<i32> = vec![0, 1, 2, 3, 4];
        let ret = take_while(&xs, &|x| x <= 4);
        assert_eq!(ret.len(), 5);
    }
    {
        let xs: Vec<i32> = vec![0, 1, 2, 3, 4];
        let ret = take_while(&xs, &|x| x <= 2);
        assert_eq!(ret.len(), 3);
        assert_eq!(ret[2], 2);
    }
}

#[test]
fn test_map() {
    {
        let xs: Vec<i32> = vec![0, 1, 2, 3, 4];
        let mapped: Vec<i32> = echo_reactor::list::map(&xs, &|x| x * 2);
        assert_eq!(mapped.len(), 5);
        assert_eq!(mapped[0], 0);
        assert_eq!(mapped[1], 2);
        assert_eq!(mapped[4], 8);
    }
    {
        let xs: Vec<f64> = vec![0.0, 1.3, 2.0, 3.5, 4.2];
        let mapped: Vec<i32> = echo_reactor::list::map(&xs, &|x| x as i32);
        assert_eq!(mapped.len(), 5);
        assert_eq!(mapped[1], 1);
        assert_eq!(mapped[4], 4);
    }
}

#[test]
fn test_collect() {
    {
        let xs: Vec<u32> = vec![];
        let collected: Vec<u32> = collect(&xs, &|_| vec![]);
        assert_eq!(collected.len(), 0);
    }
    {
        let xs: Vec<u32> = vec![1, 2, 5];
        let collected = collect(&xs, &|x| {
            let capacity = usize::try_from(x).unwrap();
            let mut v = Vec::with_capacity(capacity);
            for i in 0..=x {
                v.push(i);
            }
            v
        });
        assert_eq!(collected.len(), (1 + 1) + (2 + 1) + (5 + 1));
        assert_eq!(collected[0], 0);
        assert_eq!(collected[1], 1);
        assert_eq!(collected[5], 0);
        assert_eq!(collected[10], 5);
    }
    {
        let values = vec![0, 1, 2];
        let bools = vec![true, false];
        let collected = collect(&values, &|x| {
            return collect(&bools, &|b| {
                return vec![(x, b)];
            });
        });
        assert_eq!(collected.len(), values.len() * bools.len());
        assert_eq!(collected[0].0, 0);
        assert_eq!(collected[0].1, true);
        assert_eq!(collected[5].0, 2);
        assert_eq!(collected[5].1, false);
    }
}

#[test]
fn test_partition() {
    {
        let xs: Vec<i32> = vec![];
        let t_f = partition(&xs, &|_| true);
        assert_eq!(t_f.0.len(), 0);
        assert_eq!(t_f.1.len(), 0);
    }
    {
        let xs = vec![0, 1, 2];
        let t_f = partition(&xs, &|_| true);
        assert_eq!(t_f.0.len(), 3);
        assert_eq!(t_f.1.len(), 0);
    }
    {
        let xs = vec![0, 1, 2];
        let t_f = partition(&xs, &|_| false);
        assert_eq!(t_f.0.len(), 0);
        assert_eq!(t_f.1.len(), 3);
    }
    {
        let xs = vec![0, -3, 2, 2, -5];
        let t_f = partition(&xs, &|x| x >= 0);
        assert_eq!(t_f.0.len(), 3);
        assert_eq!(t_f.1.len(), 2);
    }
}

#[test]
fn test_head_tail_and_cons() {
    let xs = vec![3, 1, 4, 1, 5];
    let (head, tail) = head_tail(&xs);
    assert_eq!(head, 3);
    assert_eq!(tail, vec![1, 4, 1, 5]);
    let back = cons(head, &tail);
    assert_eq!(back, xs);
}

#[test]
fn test_append_exact() {
    let xs = vec![1, 2];
    let ys = vec![3, 4, 5];
    assert_eq!(append(&xs, &ys), vec![1, 2, 3, 4, 5]);
    let empty: Vec<i32> = vec![];
    assert_eq!(append(&empty, &ys), vec![3, 4, 5]);
    assert_eq!(append(&xs, &empty), vec![1, 2]);
}

#[test]
fn test_skip_take_contents() {
    let xs = vec![10, 20, 30, 40];
    assert_eq!(skip(&xs, 2), vec![30, 40]);
    assert_eq!(take(&xs, 2), vec![10, 20]);
    assert_eq!(take_while(&xs, &|x| x < 35), vec![10, 20, 30]);
    assert_eq!(skip_while(&xs, &|x| x < 35), vec![40]);
}
