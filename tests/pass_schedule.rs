use raytracer::schedule::{Dispatcher, Pixel};
use std::collections::VecDeque;

/// Runs a pass, answering the workers in the order given by `pick`, and
/// returns the pixels in the order they came back.
fn run_pass(width: usize, height: usize, workers: usize, pick: fn(&mut VecDeque<(usize, Pixel)>) -> (usize, Pixel)) -> Vec<Pixel> {
    let mut d = Dispatcher::new(width, height, workers);
    let mut pending = VecDeque::new();
    for w in 0..d.workers() {
        if let Some(p) = d.assignment(w) {
            pending.push_back((w, p));
        }
    }
    let mut done = Vec::new();
    while d.in_flight() > 0 {
        let (w, p) = pick(&mut pending);
        let (finished, next) = d.on_answer(w);
        assert_eq!(finished, p);
        done.push(finished);
        if let Some(q) = next {
            pending.push_back((w, q));
        }
    }
    assert!(d.is_finished());
    assert!(pending.is_empty());
    done
}

fn first(q: &mut VecDeque<(usize, Pixel)>) -> (usize, Pixel) {
    q.pop_front().unwrap()
}

fn last(q: &mut VecDeque<(usize, Pixel)>) -> (usize, Pixel) {
    q.pop_back().unwrap()
}

fn all_pixels(width: usize, height: usize) -> Vec<Pixel> {
    let mut v = Vec::new();
    for x in 0..width {
        for y in 0..height {
            v.push(Pixel { x, y });
        }
    }
    v
}

#[test]
fn seeds_the_first_column_to_the_workers() {
    let d = Dispatcher::new(3, 4, 2);
    assert_eq!(d.assignment(0), Some(Pixel { x: 0, y: 0 }));
    assert_eq!(d.assignment(1), Some(Pixel { x: 0, y: 1 }));
    assert_eq!(d.in_flight(), 2);
    assert!(!d.is_finished());
}

#[test]
fn every_pixel_comes_back_once_whatever_the_order() {
    for &(w, h, n) in &[(3, 4, 2), (5, 5, 5), (1, 7, 3), (6, 2, 1), (4, 3, 3)] {
        let mut a = run_pass(w, h, n, first);
        assert_eq!(a, all_pixels(w, h));
        let mut b = run_pass(w, h, n, last);
        a.sort_by_key(|p| (p.x, p.y));
        b.sort_by_key(|p| (p.x, p.y));
        assert_eq!(a, all_pixels(w, h));
        assert_eq!(b, all_pixels(w, h));
    }
}

#[test]
fn worker_gets_the_next_pixel_after_its_answer() {
    let mut d = Dispatcher::new(2, 2, 2);
    let (p, next) = d.on_answer(1);
    assert_eq!(p, Pixel { x: 0, y: 1 });
    assert_eq!(next, Some(Pixel { x: 1, y: 0 }));
    assert_eq!(d.assignment(1), Some(Pixel { x: 1, y: 0 }));
    let (p, next) = d.on_answer(0);
    assert_eq!(p, Pixel { x: 0, y: 0 });
    assert_eq!(next, Some(Pixel { x: 1, y: 1 }));
    let (_, next) = d.on_answer(0);
    assert_eq!(next, None);
    assert_eq!(d.assignment(0), None);
    assert_eq!(d.in_flight(), 1);
    let (p, next) = d.on_answer(1);
    assert_eq!(p, Pixel { x: 1, y: 0 });
    assert_eq!(next, None);
    assert!(d.is_finished());
}

#[test]
fn more_workers_than_pixels_leaves_some_idle() {
    let d = Dispatcher::new(1, 2, 4);
    assert_eq!(d.assignment(1), Some(Pixel { x: 0, y: 1 }));
    assert_eq!(d.assignment(2), None);
    assert_eq!(d.assignment(3), None);
    assert_eq!(run_pass(1, 2, 4, first), all_pixels(1, 2));
}

#[test]
fn empty_image_is_finished_at_once() {
    let d = Dispatcher::new(0, 5, 3);
    assert_eq!(d.in_flight(), 0);
    assert!(d.is_finished());
    assert_eq!(d.assignment(0), None);
}
