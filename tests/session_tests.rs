use voxel_rs::block::{BlockMesh, TextureRect};
use voxel_rs::chunk::{Chunk, ChunkPos};
use voxel_rs::network::{ClientEvent, Fifo, LocalLink, ServerEvent, ToClient, ToServer, LOCAL_PLAYER};
use voxel_rs::physics::{Aabb, UNITS_PER_BLOCK};
use voxel_rs::session::{SinglePlayer, SessionError};

const U: i64 = UNITS_PER_BLOCK;

fn meshes() -> Vec<BlockMesh> {
    let t = TextureRect { x: 0, y: 0, width: 16, height: 16 };
    vec![BlockMesh::Empty, BlockMesh::FullCube { texture: [t; 6] }]
}

fn session() -> SinglePlayer {
    SinglePlayer::new(meshes(), Aabb::new([0, 0, 0], [U * 8 / 10, U * 18 / 10, U * 8 / 10])).unwrap()
}

fn origin() -> ChunkPos {
    ChunkPos { px: 0, py: 0, pz: 0 }
}

#[test]
fn last_received_chunk_wins_after_one_tick() {
    let mut s = session();
    let mut link = LocalLink::new();
    link.server_send(LOCAL_PLAYER, ToClient::Chunk(Chunk::filled(origin(), 0)));
    link.server_send(LOCAL_PLAYER, ToClient::Chunk(Chunk::filled(origin(), 1)));
    assert_eq!(s.tick_local(&mut link), Ok(()));
    let meshes_at_origin: Vec<_> = s.chunk_meshes.entries.iter().filter(|(p, _)| *p == origin()).collect();
    assert_eq!(meshes_at_origin.len(), 1);
    assert_eq!(s.chunk_meshes.entries.len(), 1);
    // all solid, no neighbour known: one merged quad per face
    assert_eq!(meshes_at_origin[0].1.vertices.len(), 24);
    assert_eq!(s.world.get_chunk(origin()).unwrap().blocks[0], 1);
    assert!(s.dirty.items.is_empty());
    assert!(matches!(link.client_receive(), ClientEvent::NoEvent));
}

#[test]
fn chunk_marks_itself_and_neighbors_dirty() {
    let mut s = session();
    assert_eq!(s.apply_event(ClientEvent::ServerMessage(ToClient::Chunk(Chunk::filled(origin(), 1)))), Ok(()));
    assert_eq!(s.dirty.items.len(), 27);
    s.remesh();
    // only the known chunk gets a mesh
    assert_eq!(s.chunk_meshes.entries.len(), 1);
    assert!(s.dirty.items.is_empty());
}

#[test]
fn neighbors_beyond_range_are_not_marked() {
    let mut s = session();
    let p = ChunkPos { px: i64::MAX, py: 0, pz: 0 };
    assert_eq!(s.apply_event(ClientEvent::ServerMessage(ToClient::Chunk(Chunk::filled(p, 1)))), Ok(()));
    assert_eq!(s.dirty.items.len(), 18);
}

#[test]
fn disconnection_ends_session() {
    let mut s = session();
    assert_eq!(s.apply_event(ClientEvent::Disconnected), Err(SessionError::Disconnected));
}

#[test]
fn unregistered_block_is_a_desync() {
    let mut s = session();
    let r = s.apply_event(ClientEvent::ServerMessage(ToClient::Chunk(Chunk::filled(origin(), 7))));
    assert_eq!(r, Err(SessionError::UnknownBlock));
    assert!(s.world.chunks.is_empty());
}

#[test]
fn malformed_chunk_is_rejected() {
    let mut s = session();
    let c = Chunk { pos: origin(), blocks: vec![0; 5] };
    assert_eq!(s.apply_event(ClientEvent::ServerMessage(ToClient::Chunk(c))), Err(SessionError::MalformedChunk));
}

#[test]
fn connected_and_repeated_game_data_are_ignored() {
    let mut s = session();
    assert_eq!(s.apply_event(ClientEvent::Connected), Ok(()));
    assert_eq!(s.apply_event(ClientEvent::NoEvent), Ok(()));
    assert!(s.world.chunks.is_empty());
    assert!(s.dirty.items.is_empty());
}

#[test]
fn tick_stops_at_first_fatal_event() {
    let mut s = session();
    let mut link = LocalLink::new();
    link.server_send(LOCAL_PLAYER, ToClient::Chunk(Chunk::filled(origin(), 1)));
    link.to_client.push(ClientEvent::Disconnected);
    link.server_send(LOCAL_PLAYER, ToClient::Chunk(Chunk::filled(ChunkPos { px: 5, py: 0, pz: 0 }, 1)));
    assert_eq!(s.tick_local(&mut link), Err(SessionError::Disconnected));
    assert_eq!(s.world.chunks.len(), 1);
    assert_eq!(link.to_client.len(), 1);
}

#[test]
fn player_move_is_clipped_and_reported() {
    let mut s = session();
    s.apply_event(ClientEvent::ServerMessage(ToClient::Chunk(Chunk::filled(ChunkPos { px: 0, py: -1, pz: 0 }, 1)))).unwrap();
    let r = s.move_player([U / 2, -U, 0]).unwrap();
    match r {
        ToServer::SetPos(p) => assert_eq!(p, [U / 2, 0, 0]),
    }
    assert_eq!(s.player.min, [U / 2, 0, 0]);
}

#[test]
fn player_move_out_of_range_fails() {
    let mut s = SinglePlayer::new(meshes(), Aabb::new([0x100_0000_0000 - 10, 0, 0], [U, U, U])).unwrap();
    assert_eq!(s.move_player([100, 0, 0]).err(), Some(SessionError::OutOfBounds));
    assert_eq!(s.player.min, [0x100_0000_0000 - 10, 0, 0]);
}

#[test]
fn session_needs_empty_air_mesh() {
    let t = TextureRect { x: 0, y: 0, width: 1, height: 1 };
    let b = Aabb::new([0, 0, 0], [U, U, U]);
    assert!(SinglePlayer::new(vec![BlockMesh::FullCube { texture: [t; 6] }], b).is_none());
    assert!(SinglePlayer::new(vec![], b).is_none());
    assert!(SinglePlayer::new(meshes(), Aabb::new([0, 0, 0], [0, U, U])).is_none());
}

#[test]
fn messages_arrive_in_send_order() {
    let mut link = LocalLink::new();
    assert!(matches!(link.server_receive(), ServerEvent::ClientConnected(LOCAL_PLAYER)));
    link.client_send(ToServer::SetPos([1, 2, 3]));
    link.client_send(ToServer::SetPos([4, 5, 6]));
    match link.server_receive() {
        ServerEvent::ClientMessage(LOCAL_PLAYER, ToServer::SetPos(p)) => assert_eq!(p, [1, 2, 3]),
        _ => panic!("expected the first message"),
    }
    match link.server_receive() {
        ServerEvent::ClientMessage(LOCAL_PLAYER, ToServer::SetPos(p)) => assert_eq!(p, [4, 5, 6]),
        _ => panic!("expected the second message"),
    }
    assert!(matches!(link.server_receive(), ServerEvent::NoEvent));
}

#[test]
fn fifo_drain_keeps_order() {
    let mut q = Fifo::new();
    q.push(1);
    q.push(2);
    q.push(3);
    assert_eq!(q.pop(), Some(1));
    assert_eq!(q.drain(), vec![2, 3]);
    assert_eq!(q.pop(), None);
}
